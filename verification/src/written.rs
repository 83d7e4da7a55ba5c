//! Writing lexemes back as text, and the laws that tokenizing what was
//! written gives the lexemes back and that parsing it gives the declaration
//! back.

use vstd::prelude::*;
use crate::ast::{ExpressionView, Operator, StatementView};
use crate::grammar::{
    binary_expression, binary_operator, expect_kind, expression,
    lemma_binary_expression_position, lemma_expression_position,
    lemma_variable_declaration_position, operator_of, simple_expression, variable_declaration,
    Parsed, MAX_EXPRESSION_DEPTH,
};
use crate::lexical::{
    flush, is_ignore_char, is_kept_together, is_stop_char, is_string_char, next_of, pair_at,
    read_char, scan, start, tokens_of, Scan, ESCAPE_CHAR,
};
use crate::tokenizer::TokenizerState;
use crate::tokens::{
    classify, integer_value, is_digit, lemma_decimal_value_nonnegative, unsigned_part,
    TokenType,
};
use crate::unparse::{
    declaration_tokens, digits_of, expression_tokens, integer_lexeme,
    lemma_declaration_round_trip, lemma_digits_denote, operator_lexeme, term_lexeme,
};

verus! {

/// A lexeme made of characters that end no token.
pub open spec fn is_word(lexeme: Seq<char>) -> bool {
    lexeme.len() > 0 && forall|i: int| 0 <= i < lexeme.len() ==> !is_stop_char(#[trigger] lexeme[i])
}

/// A lexeme made of one stop character that makes a token of its own.
pub open spec fn is_sign(lexeme: Seq<char>) -> bool {
    lexeme.len() == 1 && is_stop_char(lexeme[0]) && !is_ignore_char(lexeme[0])
}

/// A lexeme made of a stop character and the character kept together with it.
pub open spec fn is_pair(lexeme: Seq<char>) -> bool {
    lexeme.len() == 2 && is_stop_char(lexeme[0]) && is_kept_together(lexeme[0], lexeme[1])
}

/// Whether the character at place `i` of a lexeme that starts with a quote
/// is that quote, unescaped.
pub open spec fn closes_at(lexeme: Seq<char>, i: int) -> bool {
    &&& lexeme[i] == lexeme[0]
    &&& lexeme[i] != ESCAPE_CHAR
    &&& !(i >= 2 && lexeme[i - 1] == ESCAPE_CHAR)
}

/// A lexeme that is a string literal: it starts with a quote and ends with
/// the first unescaped occurrence of that quote after it.
pub open spec fn is_literal(lexeme: Seq<char>) -> bool {
    &&& lexeme.len() >= 2
    &&& is_string_char(lexeme[0])
    &&& closes_at(lexeme, lexeme.len() - 1)
    &&& forall|i: int| 1 <= i < lexeme.len() - 1 ==> !#[trigger] closes_at(lexeme, i)
}

/// A lexeme that a space after it makes a token of: a word, a sign, a pair
/// or a string literal.
pub open spec fn is_spaceable(lexeme: Seq<char>) -> bool {
    is_word(lexeme) || is_sign(lexeme) || is_pair(lexeme) || is_literal(lexeme)
}

/// Whether every lexeme is `is_spaceable`.
pub open spec fn all_spaceable(lexemes: Seq<Seq<char>>) -> bool {
    forall|i: int| 0 <= i < lexemes.len() ==> is_spaceable(#[trigger] lexemes[i])
}

/// The text that writes the lexemes, a space after each.
pub open spec fn spaced(lexemes: Seq<Seq<char>>) -> Seq<char>
    decreases lexemes.len(),
{
    if lexemes.len() == 0 {
        Seq::empty()
    } else {
        lexemes[0] + seq![' '] + spaced(lexemes.drop_first())
    }
}

/// The state after the token `lexeme` and the space that follows it, `read`
/// places further.
pub open spec fn after_token(s: Scan, lexeme: Seq<char>, read: int) -> Scan {
    Scan {
        state: TokenizerState::Unknown,
        buffer: Seq::empty(),
        escaped: false,
        emitted: s.emitted.push(lexeme),
        index: s.index + read,
        ..s
    }
}

/// Reading the rest of a string literal and the space after it makes a
/// token of the literal.
proof fn lemma_scan_literal(source: Seq<char>, s: Scan, literal: Seq<char>, k: int)
    requires
        s.state == TokenizerState::String,
        !s.skip,
        is_literal(literal),
        1 <= k < literal.len(),
        s.quote == literal[0],
        s.escaped == (k >= 2 && literal[k - 1] == ESCAPE_CHAR),
        s.buffer == literal.take(k),
        0 <= s.index,
        s.index + (literal.len() - k) < source.len(),
        forall|j: int| k <= j < literal.len() ==> source[s.index + j - k] == #[trigger] literal[j],
        source[s.index + literal.len() - k] == ' ',
    ensures
        scan(source, s) == scan(source, after_token(s, literal, literal.len() - k + 1)),
    decreases literal.len() - k,
{
    let c = source[s.index];
    assert(c == literal[k]);
    if k < literal.len() - 1 {
        assert(!closes_at(literal, k));
        let next = Scan {
            buffer: s.buffer.push(c),
            escaped: c == ESCAPE_CHAR,
            index: s.index + 1,
            ..s
        };
        assert(next.buffer =~= literal.take(k + 1));
        assert(scan(source, s) == scan(source, next));
        assert forall|j: int| k + 1 <= j < literal.len() implies source[next.index + j - (k + 1)]
            == #[trigger] literal[j] by {
            assert(source[s.index + j - k] == literal[j]);
        }
        lemma_scan_literal(source, next, literal, k + 1);
        assert(after_token(next, literal, literal.len() - (k + 1) + 1) == after_token(
            s,
            literal,
            literal.len() - k + 1,
        ));
    } else {
        reveal_with_fuel(scan, 3);
        assert(closes_at(literal, k));
        assert(s.buffer.push(c) =~= literal);
        assert(source[s.index + 1] == ' ');
    }
}

/// Reading the rest of a word and the space after it makes a token of the word.
proof fn lemma_scan_word(source: Seq<char>, s: Scan, word: Seq<char>, k: int)
    requires
        s.state == TokenizerState::Unknown,
        !s.skip,
        !s.escaped,
        is_word(word),
        0 <= k <= word.len(),
        s.buffer == word.take(k),
        0 <= s.index,
        s.index + (word.len() - k) < source.len(),
        forall|j: int| k <= j < word.len() ==> source[s.index + j - k] == #[trigger] word[j],
        source[s.index + word.len() - k] == ' ',
    ensures
        scan(source, s) == scan(source, after_token(s, word, word.len() - k + 1)),
    decreases word.len() - k,
{
    if k < word.len() {
        let c = source[s.index];
        assert(c == word[k]);
        assert(!is_stop_char(c));
        let next = Scan { buffer: s.buffer.push(c), index: s.index + 1, ..s };
        assert(next.buffer =~= word.take(k + 1));
        assert(scan(source, s) == scan(source, next));
        assert forall|j: int| k + 1 <= j < word.len() implies source[next.index + j - (k + 1)]
            == #[trigger] word[j] by {
            assert(source[s.index + j - k] == word[j]);
        }
        lemma_scan_word(source, next, word, k + 1);
        assert(after_token(next, word, word.len() - (k + 1) + 1) == after_token(
            s,
            word,
            word.len() - k + 1,
        ));
    } else {
        assert(s.buffer =~= word);
        assert(source[s.index] == ' ');
    }
}

/// Reading the lexemes that a text writes, a space after each, makes the
/// tokens after those made before.
proof fn lemma_scan_spaced(source: Seq<char>, s: Scan, rest: Seq<Seq<char>>)
    requires
        s.state == TokenizerState::Unknown,
        !s.skip,
        !s.escaped,
        s.buffer == Seq::<char>::empty(),
        0 <= s.index <= source.len(),
        source.skip(s.index) == spaced(rest),
        all_spaceable(rest),
    ensures
        flush(scan(source, s)).emitted == s.emitted + rest,
    decreases rest.len(),
{
    let i = s.index;
    if rest.len() == 0 {
        assert(source.skip(i).len() == 0);
        assert(s.emitted + rest =~= s.emitted);
    } else {
        let lexeme = rest[0];
        let others = rest.drop_first();
        let text = spaced(rest);
        assert(text == lexeme + seq![' '] + spaced(others));
        assert(is_spaceable(lexeme));
        let n = lexeme.len() as int;
        assert(text.len() == n + 1 + spaced(others).len());
        assert(source.len() - i == text.len());
        assert forall|j: int| 0 <= j < n implies source[i + j] == #[trigger] lexeme[j] by {
            assert(source.skip(i)[j] == text[j]);
        }
        assert(source[i + n] == ' ') by {
            assert(source.skip(i)[n] == text[n]);
        }
        let after = if is_word(lexeme) || is_sign(lexeme) || is_pair(lexeme) {
            after_token(s, lexeme, n + 1)
        } else {
            Scan { quote: lexeme[0], ..after_token(s, lexeme, n + 1) }
        };
        assert(source.skip(after.index) =~= spaced(others)) by {
            assert forall|j: int| 0 <= j < spaced(others).len() implies source[after.index + j]
                == spaced(others)[j] by {
                assert(source.skip(i)[n + 1 + j] == text[n + 1 + j]);
            }
        }
        assert(all_spaceable(others)) by {
            assert forall|k: int| 0 <= k < others.len() implies is_spaceable(
                #[trigger] others[k],
            ) by {
                assert(others[k] == rest[k + 1]);
            }
        }
        assert(scan(source, s) == scan(source, after)) by {
            if is_word(lexeme) {
                assert(s.buffer =~= lexeme.take(0));
                lemma_scan_word(source, s, lexeme, 0);
            } else if is_sign(lexeme) {
                reveal_with_fuel(scan, 3);
                let c = lexeme[0];
                assert(source[i + 0] == c);
                assert(Seq::<char>::empty().push(c) =~= lexeme);
            } else if is_pair(lexeme) {
                reveal_with_fuel(scan, 3);
                assert(source[i + 0] == lexeme[0]);
                assert(source[i + 1] == lexeme[1]);
                assert(Seq::<char>::empty().push(lexeme[0]).push(lexeme[1]) =~= lexeme);
            } else {
                let c = lexeme[0];
                assert(source[i + 0] == c);
                let opened = Scan {
                    state: TokenizerState::String,
                    quote: c,
                    buffer: s.buffer.push(c),
                    index: i + 1,
                    ..s
                };
                assert(opened.buffer =~= lexeme.take(1));
                assert(scan(source, s) == scan(source, opened));
                assert forall|j: int| 1 <= j < n implies source[opened.index + j - 1]
                    == #[trigger] lexeme[j] by {
                    assert(source[i + j] == lexeme[j]);
                }
                lemma_scan_literal(source, opened, lexeme, 1);
                assert(after_token(opened, lexeme, n - 1 + 1) == after);
            }
        }
        lemma_scan_spaced(source, after, others);
        assert(s.emitted.push(lexeme) + others =~= s.emitted + rest);
    }
}

/// Tokenizing the text that writes spaceable lexemes, a space after each,
/// gives the lexemes back.
pub proof fn lemma_spaced_text_is_tokenized(lexemes: Seq<Seq<char>>)
    requires
        all_spaceable(lexemes),
    ensures
        tokens_of(spaced(lexemes)) == lexemes,
{
    let source = spaced(lexemes);
    assert(source.skip(0) =~= source);
    lemma_scan_spaced(source, start(), lexemes);
    assert(start().emitted + lexemes =~= lexemes);
}

/// Whether the accumulated text is the start of a string literal that no
/// quote has closed yet, and `escaped` says whether its last character
/// escapes the next one.
pub open spec fn is_open_literal(buffer: Seq<char>, escaped: bool) -> bool {
    &&& buffer.len() >= 1
    &&& is_string_char(buffer[0])
    &&& forall|i: int| 1 <= i < buffer.len() ==> !#[trigger] closes_at(buffer, i)
    &&& escaped == (buffer.len() >= 2 && buffer.last() == ESCAPE_CHAR)
}

/// What holds of the tokenizer between two characters of a source: the
/// tokens made are spaceable, and the accumulated text is the start of a
/// word or of a string literal.
pub open spec fn well_scanned(s: Scan) -> bool {
    &&& all_spaceable(s.emitted)
    &&& s.state != TokenizerState::StopChar
    &&& s.state == TokenizerState::String ==> is_open_literal(s.buffer, s.escaped) && s.quote
        == s.buffer[0]
    &&& s.state != TokenizerState::String ==> !s.escaped && forall|i: int|
        0 <= i < s.buffer.len() ==> !is_stop_char(#[trigger] s.buffer[i])
    &&& s.state == TokenizerState::StartStopComment || s.state == TokenizerState::LineComment
        || s.skip ==> s.buffer.len() == 0
}

/// A spaceable lexeme after spaceable lexemes makes spaceable lexemes.
proof fn lemma_spaceable_push(lexemes: Seq<Seq<char>>, lexeme: Seq<char>)
    requires
        all_spaceable(lexemes),
        is_spaceable(lexeme),
    ensures
        all_spaceable(lexemes.push(lexeme)),
{
    assert forall|i: int| 0 <= i < lexemes.push(lexeme).len() implies is_spaceable(
        #[trigger] lexemes.push(lexeme)[i],
    ) by {
        if i < lexemes.len() {
            assert(lexemes.push(lexeme)[i] == lexemes[i]);
        }
    }
}

/// Flushing the start of a word makes spaceable tokens.
proof fn lemma_flush_word(s: Scan)
    requires
        well_scanned(s),
        s.state != TokenizerState::String,
    ensures
        all_spaceable(flush(s).emitted),
        flush(s).buffer =~= Seq::<char>::empty(),
{
    if s.buffer.len() > 0 {
        assert(is_word(s.buffer));
        lemma_spaceable_push(s.emitted, s.buffer);
    }
}

/// Reading one character keeps what `well_scanned` says.
proof fn lemma_read_char_keeps_well_scanned(source: Seq<char>, s: Scan)
    requires
        well_scanned(s),
        0 <= s.index < source.len(),
    ensures
        well_scanned(read_char(s, source, source[s.index], next_of(source, s.index))),
{
    let c = source[s.index];
    let next = next_of(source, s.index);
    let read = read_char(s, source, c, next);
    if s.skip {
    } else {
        match s.state {
            TokenizerState::Unknown => {
                lemma_flush_word(s);
                let flushed = flush(s);
                if is_string_char(c) {
                    let opened = flushed.buffer.push(c);
                    assert(opened =~= seq![c]);
                } else if c == '/' && next == Some('*') {
                } else if c == '/' && next == Some('/') {
                } else if is_stop_char(c) {
                    if pair_at(source, s.index) {
                        let pair = flushed.buffer.push(source[s.index]).push(
                            source[s.index + 1],
                        );
                        assert(pair.len() == 2);
                        assert(pair[0] == c);
                        assert(is_pair(pair));
                        lemma_spaceable_push(flushed.emitted, pair);
                    } else if !is_ignore_char(c) {
                        let sign = flushed.buffer.push(c);
                        assert(is_sign(sign));
                        lemma_spaceable_push(flushed.emitted, sign);
                    }
                } else {
                    let grown = s.buffer.push(c);
                    assert forall|i: int| 0 <= i < grown.len() implies !is_stop_char(
                        #[trigger] grown[i],
                    ) by {
                        if i < s.buffer.len() {
                            assert(grown[i] == s.buffer[i]);
                        }
                    }
                }
            },
            TokenizerState::String => {
                let grown = s.buffer.push(c);
                let k = s.buffer.len() as int;
                assert forall|i: int| 1 <= i < k implies !#[trigger] closes_at(grown, i) by {
                    assert(!closes_at(s.buffer, i));
                    assert(grown[i] == s.buffer[i]);
                    assert(grown[i - 1] == s.buffer[i - 1]);
                    assert(grown[0] == s.buffer[0]);
                }
                assert(grown[0] == s.buffer[0]);
                if k >= 2 {
                    assert(grown[k - 1] == s.buffer.last());
                }
                let closes = !s.escaped && c != ESCAPE_CHAR && c == s.quote;
                assert(closes == closes_at(grown, k));
                if closes {
                    assert(is_literal(grown));
                    lemma_spaceable_push(s.emitted, grown);
                } else {
                    assert(is_open_literal(grown, c == ESCAPE_CHAR));
                }
            },
            TokenizerState::StartStopComment => {},
            TokenizerState::LineComment => {
                assert(s.buffer =~= Seq::<char>::empty());
            },
            TokenizerState::StopChar => {},
        }
    }
}

/// Reading a source to its end keeps what `well_scanned` says.
proof fn lemma_scan_keeps_well_scanned(source: Seq<char>, s: Scan)
    requires
        well_scanned(s),
    ensures
        well_scanned(scan(source, s)),
    decreases source.len() - s.index,
{
    if 0 <= s.index < source.len() {
        let read = read_char(s, source, source[s.index], next_of(source, s.index));
        lemma_read_char_keeps_well_scanned(source, s);
        lemma_scan_keeps_well_scanned(source, Scan { index: read.index + 1, ..read });
    }
}

/// Every token of a source but the last is spaceable: only a string literal
/// that the end of the source leaves open is not.
pub proof fn lemma_tokens_are_spaceable(source: Seq<char>)
    ensures
        forall|i: int|
            0 <= i < tokens_of(source).len() - 1 ==> is_spaceable(#[trigger] tokens_of(source)[i]),
{
    lemma_scan_keeps_well_scanned(source, start());
    let end = scan(source, start());
    assert forall|i: int| 0 <= i < tokens_of(source).len() - 1 implies is_spaceable(
        #[trigger] tokens_of(source)[i],
    ) by {
        assert(tokens_of(source)[i] == end.emitted[i]);
    }
}

/// Writing a parsed declaration back as text and parsing the text gives the
/// declaration back, where the lexemes that write the declaration are
/// spaceable: for every token sequence and every cursor position at which the
/// declaration of a variable is recognized, if the lexemes that write the
/// recognized declaration are spaceable, the tokens of the text that writes
/// them are recognized, from their start to their end, as the same
/// declaration.
pub proof fn lemma_declaration_text_round_trip(tokens: Seq<Seq<char>>, position: int)
    requires
        variable_declaration(tokens, position).outcome is Ok,
        all_spaceable(declaration_tokens(variable_declaration(tokens, position).outcome->Ok_0)),
    ensures
        ({
            let statement = variable_declaration(tokens, position).outcome->Ok_0;
            let written = declaration_tokens(statement);
            variable_declaration(tokens_of(spaced(written)), -1) == (Parsed {
                outcome: Ok(statement),
                position: written.len() - 1,
            })
        }),
{
    let statement = variable_declaration(tokens, position).outcome->Ok_0;
    lemma_declaration_round_trip(tokens, position);
    lemma_spaced_text_is_tokenized(declaration_tokens(statement));
}

/// Spaceable lexemes after spaceable lexemes make spaceable lexemes.
proof fn lemma_spaceable_concat(first: Seq<Seq<char>>, second: Seq<Seq<char>>)
    requires
        all_spaceable(first),
        all_spaceable(second),
    ensures
        all_spaceable(first + second),
{
    assert forall|i: int| 0 <= i < (first + second).len() implies is_spaceable(
        #[trigger] (first + second)[i],
    ) by {
        if i < first.len() {
            assert((first + second)[i] == first[i]);
        } else {
            assert((first + second)[i] == second[i - first.len()]);
        }
    }
}

/// The number that a spaceable integer lexeme denotes is written as a word.
proof fn lemma_integer_is_written_as_word(lexeme: Seq<char>)
    requires
        is_spaceable(lexeme),
        integer_value(lexeme) is Some,
    ensures
        is_word(integer_lexeme(integer_value(lexeme)->0 as int)),
{
    assert(lexeme[0] != '+' && lexeme[0] != '-');
    assert(unsigned_part(lexeme) == lexeme);
    lemma_decimal_value_nonnegative(lexeme);
    let n = integer_value(lexeme)->0;
    assert(n >= 0);
    lemma_digits_denote(n as nat);
    let written = digits_of(n as nat);
    assert(integer_lexeme(n as int) == written);
    assert forall|i: int| 0 <= i < written.len() implies !is_stop_char(#[trigger] written[i]) by {
        assert(is_digit(written[i]));
    }
}

/// The operator that a spaceable lexeme denotes is written as a spaceable lexeme.
proof fn lemma_operator_is_written_spaceable(lexeme: Seq<char>)
    requires
        is_spaceable(lexeme),
        operator_of(classify(lexeme)) is Some,
    ensures
        is_spaceable(operator_lexeme(operator_of(classify(lexeme))->0)),
{
    let operator = operator_of(classify(lexeme))->0;
    let written = operator_lexeme(operator);
    if operator == Operator::NotEqual {
        assert(lexeme.len() == 2 && lexeme[0] == '!' && lexeme[1] == '=');
        assert(is_stop_char(lexeme[1]));
        assert(!is_word(lexeme));
    } else if written.len() == 1 {
        assert(is_sign(written));
    } else {
        assert(is_pair(written));
    }
}

/// The primary term that the parser makes of a spaceable lexeme is written
/// as a spaceable lexeme.
proof fn lemma_term_is_written_spaceable(tokens: Seq<Seq<char>>, position: int)
    requires
        simple_expression(tokens, position).outcome is Ok,
        is_spaceable(tokens[position + 1]),
    ensures
        is_spaceable(term_lexeme(simple_expression(tokens, position).outcome->Ok_0)),
        expression_tokens(simple_expression(tokens, position).outcome->Ok_0) == seq![
            term_lexeme(simple_expression(tokens, position).outcome->Ok_0),
        ],
{
    let term = simple_expression(tokens, position).outcome->Ok_0;
    match term {
        ExpressionView::Integer(_) => {
            lemma_integer_is_written_as_word(tokens[position + 1]);
        },
        _ => {},
    }
}

/// What the parser makes of spaceable lexemes as an expression is written
/// as spaceable lexemes.
proof fn lemma_expression_is_written_spaceable(
    tokens: Seq<Seq<char>>,
    position: int,
    depth: nat,
    limit: int,
)
    requires
        limit <= tokens.len(),
        forall|i: int| 0 <= i < limit ==> is_spaceable(#[trigger] tokens[i]),
    ensures
        expression(tokens, position, depth).outcome is Ok && expression(
            tokens,
            position,
            depth,
        ).position < limit ==> all_spaceable(
            expression_tokens(expression(tokens, position, depth).outcome->Ok_0),
        ),
    decreases depth, 1int,
{
    let result = expression(tokens, position, depth);
    if result.outcome is Ok && result.position < limit {
        let bracket = expect_kind(tokens, position, TokenType::BracketOpen);
        let primary = simple_expression(tokens, bracket.position);
        let term = primary.outcome->Ok_0;
        let continued = binary_expression(tokens, primary.position, term, depth);
        lemma_binary_expression_position(tokens, primary.position, term, depth);
        lemma_term_is_written_spaceable(tokens, bracket.position);
        lemma_binary_is_written_spaceable(tokens, primary.position, term, depth, limit);
        let inner = if continued.outcome is Ok {
            continued
        } else {
            primary
        };
        let inside = expression_tokens(inner.outcome->Ok_0);
        assert(all_spaceable(inside));
        if bracket.outcome is Ok {
            let open = seq![seq!['(']];
            let close = seq![seq![')']];
            assert(is_sign(open[0]));
            assert(is_sign(close[0]));
            lemma_spaceable_concat(open, inside);
            lemma_spaceable_concat(open + inside, close);
        }
    }
}

/// What the parser makes of spaceable lexemes as the continuation of a
/// primary term is written as spaceable lexemes.
proof fn lemma_binary_is_written_spaceable(
    tokens: Seq<Seq<char>>,
    position: int,
    left: ExpressionView,
    depth: nat,
    limit: int,
)
    requires
        limit <= tokens.len(),
        forall|i: int| 0 <= i < limit ==> is_spaceable(#[trigger] tokens[i]),
        is_spaceable(term_lexeme(left)),
    ensures
        binary_expression(tokens, position, left, depth).outcome is Ok && binary_expression(
            tokens,
            position,
            left,
            depth,
        ).position < limit ==> all_spaceable(
            expression_tokens(binary_expression(tokens, position, left, depth).outcome->Ok_0),
        ),
    decreases depth, 0int,
{
    let result = binary_expression(tokens, position, left, depth);
    if result.outcome is Ok && result.position < limit {
        let operator = binary_operator(tokens, position).outcome->Ok_0;
        let right = expression(tokens, position + 1, (depth - 1) as nat);
        lemma_expression_position(tokens, position + 1, (depth - 1) as nat);
        lemma_expression_is_written_spaceable(tokens, position + 1, (depth - 1) as nat, limit);
        lemma_operator_is_written_spaceable(tokens[position + 1]);
        let head = seq![term_lexeme(left), operator_lexeme(operator)];
        assert(all_spaceable(head));
        lemma_spaceable_concat(head, expression_tokens(right.outcome->Ok_0));
    }
}

/// Writing a parsed declaration back as text and parsing the text gives the
/// declaration back: for every source and every cursor position at which
/// the declaration of a variable is recognized in the tokens of the source,
/// the tokens of the text that writes the recognized declaration, a space
/// after each lexeme, are recognized, from their start to their end, as the
/// same declaration.
pub proof fn lemma_source_round_trip(source: Seq<char>, position: int)
    requires
        variable_declaration(tokens_of(source), position).outcome is Ok,
    ensures
        ({
            let statement = variable_declaration(tokens_of(source), position).outcome->Ok_0;
            let written = declaration_tokens(statement);
            variable_declaration(tokens_of(spaced(written)), -1) == (Parsed {
                outcome: Ok(statement),
                position: written.len() - 1,
            })
        }),
{
    let tokens = tokens_of(source);
    let limit = tokens.len() - 1;
    lemma_tokens_are_spaceable(source);
    lemma_variable_declaration_position(tokens, position);
    lemma_expression_position(tokens, position + 3, MAX_EXPRESSION_DEPTH as nat);
    lemma_expression_is_written_spaceable(
        tokens,
        position + 3,
        MAX_EXPRESSION_DEPTH as nat,
        limit,
    );
    let statement = variable_declaration(tokens, position).outcome->Ok_0;
    let written = declaration_tokens(statement);
    match statement {
        StatementView::VariableDecl { data_type, name, value } => {
            assert(is_spaceable(tokens[position + 1]));
            assert(is_spaceable(tokens[position + 2]));
            assert(is_sign(seq![';']));
            assert(is_sign(seq!['=']));
            match value {
                Some(initial) => {
                    let head = seq![data_type, name, seq!['=']];
                    let tail = seq![seq![';']];
                    assert(all_spaceable(head));
                    assert(all_spaceable(tail));
                    lemma_spaceable_concat(head, expression_tokens(initial));
                    lemma_spaceable_concat(head + expression_tokens(initial), tail);
                },
                None => {
                    assert(all_spaceable(written));
                },
            }
        },
        _ => {},
    }
    lemma_declaration_text_round_trip(tokens, position);
}

} // verus!
