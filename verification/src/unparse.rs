//! Writing a declaration back as tokens, and the law that parsing what was
//! written gives the declaration back.

use vstd::prelude::*;
use crate::ast::{ExpressionView, Operator, StatementView};
use crate::grammar::{
    binary_expression, binary_operator, expect_kind, expression, in_range, operator_of,
    simple_expression, variable_declaration, Parsed, MAX_EXPRESSION_DEPTH,
};
use crate::tokens::{
    all_digits, classify, decimal_value, integer_value, is_digit, unsigned_part, TokenType,
};

verus! {

/// The character that writes the digit `d`.
pub open spec fn digit_char(d: int) -> char {
    if d == 0 {
        '0'
    } else if d == 1 {
        '1'
    } else if d == 2 {
        '2'
    } else if d == 3 {
        '3'
    } else if d == 4 {
        '4'
    } else if d == 5 {
        '5'
    } else if d == 6 {
        '6'
    } else if d == 7 {
        '7'
    } else if d == 8 {
        '8'
    } else {
        '9'
    }
}

/// The decimal digits of `n`, without leading zeros.
pub open spec fn digits_of(n: nat) -> Seq<char>
    decreases n,
{
    if n < 10 {
        seq![digit_char(n as int)]
    } else {
        digits_of(n / 10).push(digit_char((n % 10) as int))
    }
}

/// The decimal lexeme of `n`.
pub open spec fn integer_lexeme(n: int) -> Seq<char> {
    if n < 0 {
        seq!['-'] + digits_of((-n) as nat)
    } else {
        digits_of(n as nat)
    }
}

/// The digits of a number are digits, and denote the number.
pub proof fn lemma_digits_denote(n: nat)
    ensures
        digits_of(n).len() > 0,
        all_digits(digits_of(n)),
        decimal_value(digits_of(n)) == n,
    decreases n,
{
    if n < 10 {
        let s = digits_of(n);
        assert(s.drop_last() =~= Seq::<char>::empty());
        assert(decimal_value(s.drop_last()) == 0);
        assert(s.last() == digit_char(n as int));
    } else {
        lemma_digits_denote(n / 10);
        let s = digits_of(n);
        assert(s.drop_last() =~= digits_of(n / 10));
        assert(s.last() == digit_char((n % 10) as int));
        assert forall|i: int| 0 <= i < s.len() implies is_digit(#[trigger] s[i]) by {
            if i < s.len() - 1 {
                assert(s[i] == digits_of(n / 10)[i]);
            }
        }
    }
}

/// The decimal lexeme of a 32-bit integer is an integer literal that denotes it.
pub proof fn lemma_integer_lexeme_denotes(n: i32)
    ensures
        integer_value(integer_lexeme(n as int)) == Some(n),
        classify(integer_lexeme(n as int)) == TokenType::ConstIntegerExpression,
{
    let s = integer_lexeme(n as int);
    if n < 0 {
        let m = (-(n as int)) as nat;
        lemma_digits_denote(m);
        assert(s[0] == '-');
        assert(unsigned_part(s) =~= digits_of(m));
        assert(s[1] == digits_of(m)[0]);
        assert(is_digit(s[1]));
    } else {
        let m = n as nat;
        lemma_digits_denote(m);
        assert(is_digit(s[0]));
        assert(unsigned_part(s) =~= s);
        if s.len() == 2 {
            assert(is_digit(s[1]));
        }
    }
}

/// The lexeme of a binary operator.
pub open spec fn operator_lexeme(operator: Operator) -> Seq<char> {
    match operator {
        Operator::Equal => seq!['=', '='],
        Operator::NotEqual => seq!['!', '='],
        Operator::GreaterThan => seq!['>'],
        Operator::GreaterEqualThan => seq!['>', '='],
        Operator::LowerThan => seq!['<'],
        Operator::LowerEqualThan => seq!['<', '='],
        Operator::And => seq!['&', '&'],
        Operator::Or => seq!['|', '|'],
        Operator::Plus => seq!['+'],
        Operator::Minus => seq!['-'],
        Operator::Multiply => seq!['*'],
        Operator::Divide => seq!['/'],
    }
}

/// The lexeme of an operator is a token that denotes the operator.
pub proof fn lemma_operator_lexeme_denotes(operator: Operator)
    ensures
        operator_of(classify(operator_lexeme(operator))) == Some(operator),
{
}

/// Whether `e` is a primary term as the parser makes one.
pub open spec fn is_term(e: ExpressionView) -> bool {
    match e {
        ExpressionView::Identifier(name) => classify(name) == TokenType::Identifier,
        ExpressionView::String(text) => classify(text) == TokenType::ConstStringExpression,
        ExpressionView::Integer(_) => true,
        _ => false,
    }
}

/// Whether `e` is a primary term, or a primary term continued as a binary
/// expression, as the parser makes one.
pub open spec fn is_chain(e: ExpressionView) -> bool
    decreases e, 0int,
{
    match e {
        ExpressionView::Binary { left, operator, right } => is_term(*left) && is_parsed(*right),
        _ => is_term(e),
    }
}

/// Whether `e` is an expression as the parser makes one.
pub open spec fn is_parsed(e: ExpressionView) -> bool
    decreases e, 1int,
{
    match e {
        ExpressionView::Bracketed(inner) => is_chain(*inner),
        _ => is_chain(e),
    }
}

/// The number of levels to which `e` nests right operands.
pub open spec fn levels(e: ExpressionView) -> nat
    decreases e,
{
    match e {
        ExpressionView::Binary { left, operator, right } => 1 + levels(*right),
        ExpressionView::Bracketed(inner) => levels(*inner),
        _ => 0,
    }
}

/// The lexeme of a primary term.
pub open spec fn term_lexeme(e: ExpressionView) -> Seq<char> {
    match e {
        ExpressionView::Identifier(name) => name,
        ExpressionView::String(text) => text,
        ExpressionView::Integer(value) => integer_lexeme(value as int),
        _ => Seq::empty(),
    }
}

/// The lexemes that write the expression `e`.
pub open spec fn expression_tokens(e: ExpressionView) -> Seq<Seq<char>>
    decreases e,
{
    match e {
        ExpressionView::Undefined => Seq::empty(),
        ExpressionView::Bracketed(inner) => seq![seq!['(']] + expression_tokens(*inner) + seq![
            seq![')'],
        ],
        ExpressionView::Binary { left, operator, right } => seq![
            term_lexeme(*left),
            operator_lexeme(operator),
        ] + expression_tokens(*right),
        ExpressionView::Boolean(_) => Seq::empty(),
        ExpressionView::Call(_, _) => Seq::empty(),
        _ => seq![term_lexeme(e)],
    }
}

/// The lexemes that write the declaration of a variable.
pub open spec fn declaration_tokens(statement: StatementView) -> Seq<Seq<char>> {
    match statement {
        StatementView::VariableDecl { data_type, name, value } => match value {
            Some(initial) => seq![data_type, name, seq!['=']] + expression_tokens(initial) + seq![
                seq![';'],
            ],
            None => seq![data_type, name, seq![';']],
        },
        _ => Seq::empty(),
    }
}

/// What the parser makes of an expression is of the shape `is_parsed`, and
/// nests no deeper than the parser was allowed to descend.
pub proof fn lemma_expression_is_parsed(tokens: Seq<Seq<char>>, position: int, depth: nat)
    ensures
        expression(tokens, position, depth).outcome matches Ok(value) ==> is_parsed(value)
            && levels(value) <= depth,
    decreases depth, 1int,
{
    let bracket = expect_kind(tokens, position, TokenType::BracketOpen);
    let primary = simple_expression(tokens, bracket.position);
    if primary.outcome is Ok {
        let term = primary.outcome->Ok_0;
        assert(levels(term) == 0);
        lemma_binary_expression_is_chain(tokens, primary.position, term, depth);
    }
}

/// What the parser makes of the continuation of a primary term is of the
/// shape `is_chain`, and nests no deeper than the parser was allowed to
/// descend.
pub proof fn lemma_binary_expression_is_chain(
    tokens: Seq<Seq<char>>,
    position: int,
    left: ExpressionView,
    depth: nat,
)
    requires
        is_term(left),
    ensures
        binary_expression(tokens, position, left, depth).outcome matches Ok(value) ==> is_chain(
            value,
        ) && value is Binary && levels(value) <= depth,
    decreases depth, 0int,
{
    if depth > 0 && binary_operator(tokens, position).outcome is Ok {
        lemma_expression_is_parsed(tokens, position + 1, (depth - 1) as nat);
    }
}

/// Whether the lexemes `part` stand in `tokens` from place `start` on.
pub open spec fn stands_at(tokens: Seq<Seq<char>>, start: int, part: Seq<Seq<char>>) -> bool {
    &&& 0 <= start
    &&& start + part.len() <= tokens.len()
    &&& forall|i: int| 0 <= i < part.len() ==> tokens[start + i] == #[trigger] part[i]
}

/// Whether an expression ends before place `index` of `tokens`: no token
/// stands there, or one that neither starts nor continues an expression.
pub open spec fn ends_at(tokens: Seq<Seq<char>>, index: int) -> bool {
    in_range(tokens, index) ==> {
        let kind = classify(tokens[index]);
        &&& kind != TokenType::BracketOpen
        &&& kind != TokenType::Identifier
        &&& kind != TokenType::ConstStringExpression
        &&& kind != TokenType::ConstIntegerExpression
        &&& operator_of(kind) is None
    }
}

/// The lexeme of a primary term is read as that term.
pub proof fn lemma_term_is_read(tokens: Seq<Seq<char>>, position: int, term: ExpressionView)
    requires
        is_term(term),
        in_range(tokens, position + 1),
        tokens[position + 1] == term_lexeme(term),
    ensures
        simple_expression(tokens, position) == (Parsed {
            outcome: Ok(term),
            position: position + 1,
        }),
        classify(tokens[position + 1]) != TokenType::BracketOpen,
{
    match term {
        ExpressionView::Integer(value) => {
            lemma_integer_lexeme_denotes(value);
        },
        _ => {},
    }
}

/// Where the lexemes of a primary term and its continuation stand, the
/// parser reads them as that term and that continuation.
pub proof fn lemma_chain_is_read(
    tokens: Seq<Seq<char>>,
    position: int,
    chain: ExpressionView,
    depth: nat,
)
    requires
        is_chain(chain),
        levels(chain) <= depth,
        -1 <= position,
        stands_at(tokens, position + 1, expression_tokens(chain)),
        ends_at(tokens, position + 1 + expression_tokens(chain).len()),
    ensures
        ({
            let primary = simple_expression(tokens, position);
            let continued = binary_expression(
                tokens,
                position + 1,
                primary.outcome->Ok_0,
                depth,
            );
            &&& primary.outcome is Ok
            &&& primary.position == position + 1
            &&& classify(tokens[position + 1]) != TokenType::BracketOpen
            &&& chain is Binary ==> continued == (Parsed {
                outcome: Ok(chain),
                position: position + expression_tokens(chain).len(),
            })
            &&& !(chain is Binary) ==> continued.outcome is Err && primary.outcome == Ok::<
                ExpressionView,
                crate::grammar::ErrorView,
            >(chain)
        }),
    decreases chain, 0int,
{
    let written = expression_tokens(chain);
    match chain {
        ExpressionView::Binary { left, operator, right } => {
            let rest = expression_tokens(*right);
            assert(written == seq![term_lexeme(*left), operator_lexeme(operator)] + rest);
            assert(written[0] == term_lexeme(*left));
            assert(written[1] == operator_lexeme(operator));
            assert(tokens[position + 1 + 0] == written[0]);
            assert(tokens[position + 1 + 1] == written[1]);
            lemma_term_is_read(tokens, position, *left);
            lemma_operator_lexeme_denotes(operator);
            assert(stands_at(tokens, position + 3, rest)) by {
                assert forall|i: int| 0 <= i < rest.len() implies tokens[position + 3 + i]
                    == #[trigger] rest[i] by {
                    assert(written[i + 2] == rest[i]);
                    assert(tokens[position + 1 + (i + 2)] == written[i + 2]);
                }
            }
            lemma_expression_is_read(tokens, position + 2, *right, (depth - 1) as nat);
        },
        _ => {
            assert(written == seq![term_lexeme(chain)]);
            assert(tokens[position + 1 + 0] == written[0]);
            lemma_term_is_read(tokens, position, chain);
        },
    }
}

/// Where the lexemes of an expression stand, and the expression ends after
/// them, the parser reads them as that expression.
pub proof fn lemma_expression_is_read(
    tokens: Seq<Seq<char>>,
    position: int,
    value: ExpressionView,
    depth: nat,
)
    requires
        is_parsed(value),
        levels(value) <= depth,
        -1 <= position,
        stands_at(tokens, position + 1, expression_tokens(value)),
        ends_at(tokens, position + 1 + expression_tokens(value).len()),
    ensures
        expression(tokens, position, depth) == (Parsed {
            outcome: Ok(value),
            position: position + expression_tokens(value).len(),
        }),
    decreases value, 1int,
{
    let written = expression_tokens(value);
    match value {
        ExpressionView::Bracketed(inner) => {
            let inside = expression_tokens(*inner);
            assert(written == seq![seq!['(']] + inside + seq![seq![')']]);
            assert(written[0] == seq!['(']);
            assert(tokens[position + 1 + 0] == written[0]);
            assert(written[inside.len() as int + 1] == seq![')']);
            let last = inside.len() as int + 1;
            assert(tokens[position + 1 + last] == written[last]);
            assert(stands_at(tokens, position + 2, inside)) by {
                assert forall|i: int| 0 <= i < inside.len() implies tokens[position + 2 + i]
                    == #[trigger] inside[i] by {
                    assert(written[i + 1] == inside[i]);
                    assert(tokens[position + 1 + (i + 1)] == written[i + 1]);
                }
            }
            lemma_chain_is_read(tokens, position + 1, *inner, depth);
        },
        _ => {
            lemma_chain_is_read(tokens, position, value, depth);
        },
    }
}

/// Writing a parsed declaration back as tokens and parsing these gives the
/// declaration back: for every token sequence and every cursor position at
/// which the declaration of a variable is recognized, the lexemes that write
/// the recognized declaration are recognized, from their start to their end,
/// as the same declaration.
pub proof fn lemma_declaration_round_trip(tokens: Seq<Seq<char>>, position: int)
    requires
        variable_declaration(tokens, position).outcome is Ok,
    ensures
        ({
            let statement = variable_declaration(tokens, position).outcome->Ok_0;
            let written = declaration_tokens(statement);
            variable_declaration(written, -1) == (Parsed {
                outcome: Ok(statement),
                position: written.len() - 1,
            })
        }),
{
    let statement = variable_declaration(tokens, position).outcome->Ok_0;
    let written = declaration_tokens(statement);
    match statement {
        StatementView::VariableDecl { data_type, name, value } => {
            match value {
                Some(initial) => {
                    lemma_expression_is_parsed(
                        tokens,
                        position + 3,
                        MAX_EXPRESSION_DEPTH as nat,
                    );
                    let inside = expression_tokens(initial);
                    assert(written == seq![data_type, name, seq!['=']] + inside + seq![seq![';']]);
                    assert(written[0] == data_type);
                    assert(written[1] == name);
                    assert(written[2] == seq!['=']);
                    assert(written[3 + inside.len() as int] == seq![';']);
                    assert(stands_at(written, 3, inside)) by {
                        assert forall|i: int| 0 <= i < inside.len() implies written[3 + i]
                            == #[trigger] inside[i] by {}
                    }
                    lemma_expression_is_read(written, 2, initial, MAX_EXPRESSION_DEPTH as nat);
                },
                None => {
                    assert(written == seq![data_type, name, seq![';']]);
                },
            }
        },
        _ => {},
    }
}

} // verus!
