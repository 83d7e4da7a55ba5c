//! The grammar, as functions from a sequence of lexemes and a cursor position
//! to what is recognized there and where the cursor then stands.
//!
//! A cursor at position `p` has read the tokens up to and including the one
//! at `p`; a production that starts there reads from `p + 1` on. A production
//! that fails leaves the cursor where it found it.

use vstd::prelude::*;
use crate::ast::{ExpressionView, Operator, ParameterView, StatementView};
use crate::lexical::tokens_of;
use crate::tokens::{classify, integer_value, TokenType};

verus! {

/// The model of a parse error.
pub enum ErrorView {
    EndOfFile,
    UnexpectedEof,
    TokenExpected(Seq<char>, Seq<char>),
    SomeTokenExpected(Seq<Seq<char>>, Seq<char>),
    StatementExpected(Seq<char>),
    IncompatibleStatement,
}

/// Whether an error only says that a production does not apply where it was
/// tried, so that another one may be tried or parsing may stop cleanly.
pub open spec fn is_retryable(error: ErrorView) -> bool {
    error is IncompatibleStatement || error is EndOfFile
}

/// The text of an error.
pub open spec fn message_of(error: ErrorView) -> Seq<char> {
    match error {
        ErrorView::EndOfFile => "EndOfFile"@,
        ErrorView::UnexpectedEof => "UnexpectedEof"@,
        ErrorView::TokenExpected(expected, given) => "Token '"@ + expected + "' expected but '"@
            + given + "' given."@,
        ErrorView::SomeTokenExpected(_, _) => "SomeTokenExpected"@,
        ErrorView::StatementExpected(_) => "StatementExpected"@,
        ErrorView::IncompatibleStatement => "IncompatibleStatement"@,
    }
}

/// What a production recognized, and the cursor position after it.
pub struct Parsed<T> {
    pub outcome: Result<T, ErrorView>,
    pub position: int,
}

/// The failure of a production that started at `position`.
pub open spec fn failed<T>(error: ErrorView, position: int) -> Parsed<T> {
    Parsed { outcome: Err(error), position }
}

/// Whether `position` addresses a token.
pub open spec fn in_range(tokens: Seq<Seq<char>>, position: int) -> bool {
    0 <= position < tokens.len()
}

/// The names of `kinds`, in order.
pub open spec fn names_of(kinds: Seq<TokenType>) -> Seq<Seq<char>> {
    Seq::new(kinds.len(), |i: int| kinds[i].name())
}

/// The next token must be of kind `kind`.
pub open spec fn expect_kind(tokens: Seq<Seq<char>>, position: int, kind: TokenType) -> Parsed<
    Seq<char>,
> {
    if !in_range(tokens, position + 1) {
        failed(ErrorView::UnexpectedEof, position)
    } else if classify(tokens[position + 1]) != kind {
        failed(ErrorView::TokenExpected(kind.name(), tokens[position + 1]), position)
    } else {
        Parsed { outcome: Ok(tokens[position + 1]), position: position + 1 }
    }
}

/// The next token must be of one of `kinds`.
pub open spec fn expect_some_kind(
    tokens: Seq<Seq<char>>,
    position: int,
    kinds: Seq<TokenType>,
) -> Parsed<Seq<char>> {
    if !in_range(tokens, position + 1) {
        failed(ErrorView::UnexpectedEof, position)
    } else if !kinds.contains(classify(tokens[position + 1])) {
        failed(ErrorView::SomeTokenExpected(names_of(kinds), tokens[position + 1]), position)
    } else {
        Parsed { outcome: Ok(tokens[position + 1]), position: position + 1 }
    }
}

/// The next token must have the lexeme `expected`.
pub open spec fn expect_lexeme(
    tokens: Seq<Seq<char>>,
    position: int,
    expected: Seq<char>,
) -> Parsed<Seq<char>> {
    if !in_range(tokens, position + 1) {
        failed(ErrorView::UnexpectedEof, position)
    } else if tokens[position + 1] != expected {
        failed(ErrorView::TokenExpected(expected, tokens[position + 1]), position)
    } else {
        Parsed { outcome: Ok(tokens[position + 1]), position: position + 1 }
    }
}

/// The next token must have one of the lexemes `expected`.
pub open spec fn expect_some_lexeme(
    tokens: Seq<Seq<char>>,
    position: int,
    expected: Seq<Seq<char>>,
) -> Parsed<Seq<char>> {
    if !in_range(tokens, position + 1) {
        failed(ErrorView::UnexpectedEof, position)
    } else if !expected.contains(tokens[position + 1]) {
        failed(ErrorView::SomeTokenExpected(expected, tokens[position + 1]), position)
    } else {
        Parsed { outcome: Ok(tokens[position + 1]), position: position + 1 }
    }
}

/// The next token must be of kind `kind`, which diagnostics call `symbol`.
pub open spec fn demand(
    tokens: Seq<Seq<char>>,
    position: int,
    kind: TokenType,
    symbol: Seq<char>,
) -> Parsed<Seq<char>> {
    if !in_range(tokens, position + 1) {
        failed(ErrorView::UnexpectedEof, position)
    } else if classify(tokens[position + 1]) != kind {
        failed(ErrorView::TokenExpected(symbol, tokens[position + 1]), position)
    } else {
        Parsed { outcome: Ok(tokens[position + 1]), position: position + 1 }
    }
}

/// A primary term: an identifier, a quoted string or an integer.
pub open spec fn simple_expression(tokens: Seq<Seq<char>>, position: int) -> Parsed<
    ExpressionView,
> {
    if !in_range(tokens, position + 1) {
        failed(ErrorView::IncompatibleStatement, position)
    } else {
        let lexeme = tokens[position + 1];
        match classify(lexeme) {
            TokenType::Identifier => Parsed {
                outcome: Ok(ExpressionView::Identifier(lexeme)),
                position: position + 1,
            },
            TokenType::ConstStringExpression => Parsed {
                outcome: Ok(ExpressionView::String(lexeme)),
                position: position + 1,
            },
            TokenType::ConstIntegerExpression => Parsed {
                outcome: Ok(ExpressionView::Integer(integer_value(lexeme)->0)),
                position: position + 1,
            },
            _ => failed(ErrorView::IncompatibleStatement, position),
        }
    }
}

/// The binary operator that a token of kind `kind` denotes, if it denotes one.
pub open spec fn operator_of(kind: TokenType) -> Option<Operator> {
    match kind {
        TokenType::Equal => Some(Operator::Equal),
        TokenType::NotEqual => Some(Operator::NotEqual),
        TokenType::GreaterThan => Some(Operator::GreaterThan),
        TokenType::LowerThan => Some(Operator::LowerThan),
        TokenType::GreaterEqualThan => Some(Operator::GreaterEqualThan),
        TokenType::LowerEqualThan => Some(Operator::LowerEqualThan),
        TokenType::And => Some(Operator::And),
        TokenType::Or => Some(Operator::Or),
        TokenType::Plus => Some(Operator::Plus),
        TokenType::Minus => Some(Operator::Minus),
        TokenType::Divide => Some(Operator::Divide),
        TokenType::Multiply => Some(Operator::Multiply),
        _ => None,
    }
}

/// A binary operator.
pub open spec fn binary_operator(tokens: Seq<Seq<char>>, position: int) -> Parsed<Operator> {
    if !in_range(tokens, position + 1) {
        failed(ErrorView::IncompatibleStatement, position)
    } else {
        match operator_of(classify(tokens[position + 1])) {
            Some(operator) => Parsed { outcome: Ok(operator), position: position + 1 },
            None => failed(ErrorView::IncompatibleStatement, position),
        }
    }
}

/// The number of operands that an expression may hold, each the right
/// operand of the one before it. It bounds the depth to which the parser
/// descends, whatever the source.
pub const MAX_EXPRESSION_DEPTH: usize = 256;

/// An expression: an optional opening bracket; a primary term, continued as
/// a binary expression where an operator and a right operand follow; and,
/// after an opening bracket, a closing bracket. A right operand is an
/// expression that nests one level less deep; `depth` is the number of
/// levels left.
///
/// Where no primary term stands, there is no expression. A continuation
/// that fails is left unread, and the primary term stands alone. A closing
/// bracket that is missing fails the expression.
pub open spec fn expression(tokens: Seq<Seq<char>>, position: int, depth: nat) -> Parsed<
    ExpressionView,
>
    decreases depth, 1int,
{
    let bracket = expect_kind(tokens, position, TokenType::BracketOpen);
    let primary = simple_expression(tokens, bracket.position);
    match primary.outcome {
        Ok(term) => {
            let continued = binary_expression(tokens, primary.position, term, depth);
            let inner = if continued.outcome is Ok {
                continued
            } else {
                primary
            };
            if bracket.outcome is Ok {
                match expect_kind(tokens, inner.position, TokenType::BracketClose).outcome {
                    Ok(_) => Parsed {
                        outcome: Ok(ExpressionView::Bracketed(Box::new(inner.outcome->Ok_0))),
                        position: inner.position + 1,
                    },
                    Err(error) => failed(error, position),
                }
            } else {
                inner
            }
        },
        Err(error) => failed(error, position),
    }
}

/// The continuation of the primary term `left` as a binary expression: an
/// operator, then an expression as the right operand. With no level left,
/// there is no continuation.
pub open spec fn binary_expression(
    tokens: Seq<Seq<char>>,
    position: int,
    left: ExpressionView,
    depth: nat,
) -> Parsed<ExpressionView>
    decreases depth, 0int,
{
    let operator = binary_operator(tokens, position);
    if depth == 0 {
        failed(ErrorView::IncompatibleStatement, position)
    } else {
        match operator.outcome {
            Ok(sign) => {
                let right = expression(tokens, position + 1, (depth - 1) as nat);
                match right.outcome {
                    Ok(operand) => Parsed {
                        outcome: Ok(
                            ExpressionView::Binary {
                                left: Box::new(left),
                                operator: sign,
                                right: Box::new(operand),
                            },
                        ),
                        position: right.position,
                    },
                    Err(error) => failed(error, position),
                }
            },
            Err(error) => failed(error, position),
        }
    }
}

/// An expression between brackets. After the opening bracket the
/// expression and the closing bracket are required.
pub open spec fn bracket_expression(tokens: Seq<Seq<char>>, position: int) -> Parsed<
    ExpressionView,
> {
    if expect_kind(tokens, position, TokenType::BracketOpen).outcome is Err {
        failed(ErrorView::IncompatibleStatement, position)
    } else {
        let inner = expression(tokens, position + 1, MAX_EXPRESSION_DEPTH as nat);
        match inner.outcome {
            Ok(value) => match expect_kind(
                tokens,
                inner.position,
                TokenType::BracketClose,
            ).outcome {
                Ok(_) => Parsed { outcome: Ok(value), position: inner.position + 1 },
                Err(error) => failed(error, position),
            },
            Err(error) => failed(required(tokens, position + 1, error, "expression"@), position),
        }
    }
}

/// An expression leaves the cursor where it started, or at a token after it.
pub proof fn lemma_expression_position(tokens: Seq<Seq<char>>, position: int, depth: nat)
    ensures
        expression(tokens, position, depth).position == position || (position < expression(
            tokens,
            position,
            depth,
        ).position < tokens.len()),
        expression(tokens, position, depth).outcome is Err ==> expression(
            tokens,
            position,
            depth,
        ).position == position,
    decreases depth, 1int,
{
    let bracket = expect_kind(tokens, position, TokenType::BracketOpen);
    let primary = simple_expression(tokens, bracket.position);
    if primary.outcome is Ok {
        lemma_binary_expression_position(tokens, primary.position, primary.outcome->Ok_0, depth);
    }
}

/// A binary expression leaves the cursor where it started, or at a token after it.
pub proof fn lemma_binary_expression_position(
    tokens: Seq<Seq<char>>,
    position: int,
    left: ExpressionView,
    depth: nat,
)
    ensures
        binary_expression(tokens, position, left, depth).position == position || (position
            < binary_expression(tokens, position, left, depth).position < tokens.len()),
        binary_expression(tokens, position, left, depth).outcome is Err ==> binary_expression(
            tokens,
            position,
            left,
            depth,
        ).position == position,
    decreases depth, 0int,
{
    if depth > 0 && binary_operator(tokens, position).outcome is Ok {
        lemma_expression_position(tokens, position + 1, (depth - 1) as nat);
    }
}

/// The error of a production that is required after `position` and failed
/// with `error`: where the production only did not apply, the token found in
/// its place was not the one required, or the stream had ended.
pub open spec fn required(
    tokens: Seq<Seq<char>>,
    position: int,
    error: ErrorView,
    description: Seq<char>,
) -> ErrorView {
    if !(error is IncompatibleStatement) {
        error
    } else if in_range(tokens, position + 1) {
        ErrorView::TokenExpected(description, tokens[position + 1])
    } else {
        ErrorView::UnexpectedEof
    }
}

/// Whether the declaration of a variable that starts after `position` gets
/// as far as its `=`.
pub open spec fn reads_assign(tokens: Seq<Seq<char>>, position: int) -> bool {
    &&& expect_kind(tokens, position, TokenType::Identifier).outcome is Ok
    &&& expect_kind(tokens, position + 1, TokenType::Identifier).outcome is Ok
    &&& expect_kind(tokens, position + 2, TokenType::Assign).outcome is Ok
}

/// The declaration of a variable: the name of a type, the name of the
/// variable, and then a semicolon, or `=`, an expression and a semicolon.
/// After `=` the expression is required.
pub open spec fn variable_declaration(tokens: Seq<Seq<char>>, position: int) -> Parsed<
    StatementView,
> {
    let data_type = expect_kind(tokens, position, TokenType::Identifier);
    let name = expect_kind(tokens, position + 1, TokenType::Identifier);
    let assign = expect_kind(tokens, position + 2, TokenType::Assign);
    if data_type.outcome is Err {
        failed(ErrorView::IncompatibleStatement, position)
    } else if name.outcome is Err {
        failed(name.outcome->Err_0, position)
    } else if expect_kind(tokens, position + 2, TokenType::Semicolon).outcome is Ok {
        Parsed {
            outcome: Ok(
                StatementView::VariableDecl {
                    data_type: data_type.outcome->Ok_0,
                    name: name.outcome->Ok_0,
                    value: None,
                },
            ),
            position: position + 3,
        }
    } else if assign.outcome is Err {
        failed(assign.outcome->Err_0, position)
    } else {
        let value = expression(tokens, position + 3, MAX_EXPRESSION_DEPTH as nat);
        match value.outcome {
            Ok(initial) => match expect_kind(tokens, value.position, TokenType::Semicolon).outcome {
                Ok(_) => Parsed {
                    outcome: Ok(
                        StatementView::VariableDecl {
                            data_type: data_type.outcome->Ok_0,
                            name: name.outcome->Ok_0,
                            value: Some(initial),
                        },
                    ),
                    position: value.position + 1,
                },
                Err(error) => failed(error, position),
            },
            Err(error) => failed(required(tokens, position + 3, error, "expression"@), position),
        }
    }
}

/// A declaration that is recognized ends at a token after the cursor; one
/// that is not leaves the cursor where it was.
pub proof fn lemma_variable_declaration_position(tokens: Seq<Seq<char>>, position: int)
    ensures
        variable_declaration(tokens, position).outcome is Ok ==> position < variable_declaration(
            tokens,
            position,
        ).position < tokens.len(),
        variable_declaration(tokens, position).outcome is Err ==> variable_declaration(
            tokens,
            position,
        ).position == position,
{
    lemma_expression_position(tokens, position + 3, MAX_EXPRESSION_DEPTH as nat);
}

/// The statements of a function body: declarations of variables, up to the
/// first place where none starts. A declaration that starts and then breaks
/// off fails the whole body.
pub open spec fn local_body(tokens: Seq<Seq<char>>, position: int) -> Parsed<Seq<StatementView>>
    decreases tokens.len() - position,
{
    let first = variable_declaration(tokens, position);
    match first.outcome {
        Ok(statement) => {
            proof {
                lemma_variable_declaration_position(tokens, position);
            }
            let rest = local_body(tokens, first.position);
            match rest.outcome {
                Ok(others) => Parsed {
                    outcome: Ok(seq![statement] + others),
                    position: rest.position,
                },
                Err(error) => failed(error, position),
            }
        },
        Err(error) => if error is IncompatibleStatement {
            Parsed { outcome: Ok(Seq::empty()), position }
        } else {
            failed(error, position)
        },
    }
}

/// The parameters of a function, up to the closing bracket, which is not
/// read: each is the name of a type and the name of the parameter, and a
/// comma stands between two of them.
pub open spec fn parameters(tokens: Seq<Seq<char>>, position: int) -> Parsed<Seq<ParameterView>>
    decreases tokens.len() - position,
{
    if !in_range(tokens, position + 1) || classify(tokens[position + 1]) != TokenType::Identifier {
        failed(ErrorView::IncompatibleStatement, position)
    } else if !in_range(tokens, position + 2) {
        failed(ErrorView::UnexpectedEof, position)
    } else if classify(tokens[position + 2]) != TokenType::Identifier {
        failed(ErrorView::TokenExpected("identifier"@, tokens[position + 2]), position)
    } else if !in_range(tokens, position + 3) {
        failed(ErrorView::UnexpectedEof, position)
    } else {
        let parameter = ParameterView {
            data_type: tokens[position + 1],
            name: tokens[position + 2],
        };
        let kind = classify(tokens[position + 3]);
        if kind == TokenType::BracketClose {
            Parsed { outcome: Ok(seq![parameter]), position: position + 2 }
        } else if kind == TokenType::Comma {
            let rest = parameters(tokens, position + 3);
            match rest.outcome {
                Ok(others) => Parsed {
                    outcome: Ok(seq![parameter] + others),
                    position: rest.position,
                },
                Err(error) => failed(error, position),
            }
        } else {
            failed(ErrorView::TokenExpected(", or )"@, tokens[position + 3]), position)
        }
    }
}

/// The definition of a function: the name of the return type, the name of
/// the function, the parameters between brackets, and the body between
/// curly brackets.
///
/// A parameter list that is not recognized counts as empty, and so does a
/// body that fails: the bracket that should follow is then looked for where
/// the list or the body started.
pub open spec fn function_declaration(tokens: Seq<Seq<char>>, position: int) -> Parsed<
    StatementView,
> {
    let return_type = expect_kind(tokens, position, TokenType::Identifier);
    let name = expect_kind(tokens, position + 1, TokenType::Identifier);
    let open = expect_kind(tokens, position + 2, TokenType::BracketOpen);
    let list = parameters(tokens, position + 3);
    let listed = if list.outcome is Ok {
        list
    } else {
        Parsed { outcome: Ok(Seq::empty()), position: position + 3 }
    };
    let close = demand(tokens, listed.position, TokenType::BracketClose, ")"@);
    let curly = demand(tokens, listed.position + 1, TokenType::CurlyBracketOpen, "{"@);
    let body = local_body(tokens, listed.position + 2);
    let stated = if body.outcome is Ok {
        body
    } else {
        Parsed { outcome: Ok(Seq::empty()), position: listed.position + 2 }
    };
    let end = demand(tokens, stated.position, TokenType::CurlyBracketClose, "}"@);
    if return_type.outcome is Err {
        failed(ErrorView::IncompatibleStatement, position)
    } else if name.outcome is Err {
        failed(name.outcome->Err_0, position)
    } else if open.outcome is Err {
        failed(open.outcome->Err_0, position)
    } else if close.outcome is Err {
        failed(close.outcome->Err_0, position)
    } else if curly.outcome is Err {
        failed(curly.outcome->Err_0, position)
    } else if end.outcome is Err {
        failed(end.outcome->Err_0, position)
    } else {
        Parsed {
            outcome: Ok(
                StatementView::FunctionDef {
                    name: name.outcome->Ok_0,
                    parameters: listed.outcome->Ok_0,
                    return_type: return_type.outcome->Ok_0,
                    body: stated.outcome->Ok_0,
                },
            ),
            position: stated.position + 1,
        }
    }
}

/// A parameter list that is recognized ends at a token after the cursor.
pub proof fn lemma_parameters_position(tokens: Seq<Seq<char>>, position: int)
    ensures
        parameters(tokens, position).outcome is Ok ==> position < parameters(
            tokens,
            position,
        ).position < tokens.len(),
        parameters(tokens, position).outcome is Err ==> parameters(tokens, position).position
            == position,
    decreases tokens.len() - position,
{
    if in_range(tokens, position + 3) {
        lemma_parameters_position(tokens, position + 3);
    }
}

/// A body leaves the cursor where it started, or at a token after it.
pub proof fn lemma_local_body_position(tokens: Seq<Seq<char>>, position: int)
    ensures
        local_body(tokens, position).position == position || (position < local_body(
            tokens,
            position,
        ).position < tokens.len()),
        local_body(tokens, position).outcome is Err ==> local_body(tokens, position).position
            == position,
    decreases tokens.len() - position,
{
    lemma_variable_declaration_position(tokens, position);
    let first = variable_declaration(tokens, position);
    if first.outcome is Ok {
        lemma_local_body_position(tokens, first.position);
    }
}

/// A definition that is recognized ends at a token after the cursor; one
/// that is not leaves the cursor where it was.
pub proof fn lemma_function_declaration_position(tokens: Seq<Seq<char>>, position: int)
    ensures
        function_declaration(tokens, position).outcome is Ok ==> position < function_declaration(
            tokens,
            position,
        ).position < tokens.len(),
        function_declaration(tokens, position).outcome is Err ==> function_declaration(
            tokens,
            position,
        ).position == position,
{
    lemma_parameters_position(tokens, position + 3);
    let list = parameters(tokens, position + 3);
    let listed = if list.outcome is Ok {
        list.position
    } else {
        position + 3
    };
    lemma_local_body_position(tokens, listed + 2);
}

/// A top-level statement: the declaration of a variable or the definition
/// of a function. The definition is tried where the declaration fails
/// before its `=`; a declaration that fails after its `=` fails the
/// statement with its own error.
pub open spec fn statement(tokens: Seq<Seq<char>>, position: int) -> Parsed<StatementView> {
    let declaration = variable_declaration(tokens, position);
    if declaration.outcome is Ok || reads_assign(tokens, position) {
        declaration
    } else {
        function_declaration(tokens, position)
    }
}

/// A statement that is recognized ends at a token after the cursor; one that
/// is not leaves the cursor where it was.
pub proof fn lemma_statement_position(tokens: Seq<Seq<char>>, position: int)
    ensures
        statement(tokens, position).outcome is Ok ==> position < statement(
            tokens,
            position,
        ).position < tokens.len(),
        statement(tokens, position).outcome is Err ==> statement(tokens, position).position
            == position,
{
    lemma_variable_declaration_position(tokens, position);
    lemma_function_declaration_position(tokens, position);
}

/// The statements of a program, from the cursor on: statements are read
/// until none is recognized. An error that is not retryable fails the
/// program.
pub open spec fn program(tokens: Seq<Seq<char>>, position: int) -> Result<
    Seq<StatementView>,
    ErrorView,
>
    decreases tokens.len() - position,
{
    let first = statement(tokens, position);
    match first.outcome {
        Ok(found) => {
            proof {
                lemma_statement_position(tokens, position);
            }
            match program(tokens, first.position) {
                Ok(others) => Ok(seq![found] + others),
                Err(error) => Err(error),
            }
        },
        Err(error) => if is_retryable(error) {
            Ok(Seq::empty())
        } else {
            Err(error)
        },
    }
}

/// What parsing `source` gives: its statements, or the error that stopped it.
pub open spec fn parse_result(source: Seq<char>) -> Result<Seq<StatementView>, ErrorView> {
    program(tokens_of(source), -1)
}

} // verus!
