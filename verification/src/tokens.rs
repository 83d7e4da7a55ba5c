//! Tokens and their classification by textual shape.

use vstd::prelude::*;
use crate::text::chars_of;

verus! {

/// The lexical kind of a token.
#[derive(PartialEq, Eq, Copy, Clone, Debug, Structural)]
pub enum TokenType {
    Undefined,
    Unknown,
    Identifier,
    ConstIntegerExpression,
    ConstStringExpression,
    BracketOpen,
    BracketClose,
    CurlyBracketOpen,
    CurlyBracketClose,
    SquareBracketOpen,
    SquareBracketClose,
    Assign,
    Equal,
    NotEqual,
    GreaterThan,
    LowerThan,
    GreaterEqualThan,
    LowerEqualThan,
    And,
    Or,
    Comma,
    Semicolon,
    Plus,
    Minus,
    Divide,
    Multiply,
}

impl TokenType {
    /// The name of the kind, as it appears in diagnostics.
    pub open spec fn name(self) -> Seq<char> {
        match self {
            TokenType::Undefined => "Undefined"@,
            TokenType::Unknown => "Unknown"@,
            TokenType::Identifier => "Identifier"@,
            TokenType::ConstIntegerExpression => "ConstIntegerExpression"@,
            TokenType::ConstStringExpression => "ConstStringExpression"@,
            TokenType::BracketOpen => "BracketOpen"@,
            TokenType::BracketClose => "BracketClose"@,
            TokenType::CurlyBracketOpen => "CurlyBracketOpen"@,
            TokenType::CurlyBracketClose => "CurlyBracketClose"@,
            TokenType::SquareBracketOpen => "SquareBracketOpen"@,
            TokenType::SquareBracketClose => "SquareBracketClose"@,
            TokenType::Assign => "Assign"@,
            TokenType::Equal => "Equal"@,
            TokenType::NotEqual => "NotEqual"@,
            TokenType::GreaterThan => "GreaterThan"@,
            TokenType::LowerThan => "LowerThan"@,
            TokenType::GreaterEqualThan => "GreaterEqualThan"@,
            TokenType::LowerEqualThan => "LowerEqualThan"@,
            TokenType::And => "And"@,
            TokenType::Or => "Or"@,
            TokenType::Comma => "Comma"@,
            TokenType::Semicolon => "Semicolon"@,
            TokenType::Plus => "Plus"@,
            TokenType::Minus => "Minus"@,
            TokenType::Divide => "Divide"@,
            TokenType::Multiply => "Multiply"@,
        }
    }

    /// The name of the kind.
    pub fn to_string(&self) -> (text: String)
        ensures
            text@ == self.name(),
    {
        match self {
            TokenType::Undefined => "Undefined".to_string(),
            TokenType::Unknown => "Unknown".to_string(),
            TokenType::Identifier => "Identifier".to_string(),
            TokenType::ConstIntegerExpression => "ConstIntegerExpression".to_string(),
            TokenType::ConstStringExpression => "ConstStringExpression".to_string(),
            TokenType::BracketOpen => "BracketOpen".to_string(),
            TokenType::BracketClose => "BracketClose".to_string(),
            TokenType::CurlyBracketOpen => "CurlyBracketOpen".to_string(),
            TokenType::CurlyBracketClose => "CurlyBracketClose".to_string(),
            TokenType::SquareBracketOpen => "SquareBracketOpen".to_string(),
            TokenType::SquareBracketClose => "SquareBracketClose".to_string(),
            TokenType::Assign => "Assign".to_string(),
            TokenType::Equal => "Equal".to_string(),
            TokenType::NotEqual => "NotEqual".to_string(),
            TokenType::GreaterThan => "GreaterThan".to_string(),
            TokenType::LowerThan => "LowerThan".to_string(),
            TokenType::GreaterEqualThan => "GreaterEqualThan".to_string(),
            TokenType::LowerEqualThan => "LowerEqualThan".to_string(),
            TokenType::And => "And".to_string(),
            TokenType::Or => "Or".to_string(),
            TokenType::Comma => "Comma".to_string(),
            TokenType::Semicolon => "Semicolon".to_string(),
            TokenType::Plus => "Plus".to_string(),
            TokenType::Minus => "Minus".to_string(),
            TokenType::Divide => "Divide".to_string(),
            TokenType::Multiply => "Multiply".to_string(),
        }
    }
}

/// The kind of a one-character punctuation lexeme, if `c` is one.
pub open spec fn single_punctuation(c: char) -> Option<TokenType> {
    if c == '(' {
        Some(TokenType::BracketOpen)
    } else if c == ')' {
        Some(TokenType::BracketClose)
    } else if c == '{' {
        Some(TokenType::CurlyBracketOpen)
    } else if c == '}' {
        Some(TokenType::CurlyBracketClose)
    } else if c == '[' {
        Some(TokenType::SquareBracketOpen)
    } else if c == ']' {
        Some(TokenType::SquareBracketClose)
    } else if c == '=' {
        Some(TokenType::Assign)
    } else if c == '>' {
        Some(TokenType::GreaterThan)
    } else if c == '<' {
        Some(TokenType::LowerThan)
    } else if c == ',' {
        Some(TokenType::Comma)
    } else if c == ';' {
        Some(TokenType::Semicolon)
    } else if c == '+' {
        Some(TokenType::Plus)
    } else if c == '-' {
        Some(TokenType::Minus)
    } else if c == '/' {
        Some(TokenType::Divide)
    } else if c == '*' {
        Some(TokenType::Multiply)
    } else {
        None
    }
}

/// The kind of a two-character operator lexeme, if `first` and `second` make one.
pub open spec fn double_punctuation(first: char, second: char) -> Option<TokenType> {
    if first == '=' && second == '=' {
        Some(TokenType::Equal)
    } else if first == '!' && second == '=' {
        Some(TokenType::NotEqual)
    } else if first == '>' && second == '=' {
        Some(TokenType::GreaterEqualThan)
    } else if first == '<' && second == '=' {
        Some(TokenType::LowerEqualThan)
    } else if first == '&' && second == '&' {
        Some(TokenType::And)
    } else if first == '|' && second == '|' {
        Some(TokenType::Or)
    } else {
        None
    }
}

/// Whether `c` is a decimal digit.
pub open spec fn is_digit(c: char) -> bool {
    '0' <= c <= '9'
}

/// Whether `s` holds decimal digits only.
pub open spec fn all_digits(s: Seq<char>) -> bool {
    forall|i: int| 0 <= i < s.len() ==> is_digit(#[trigger] s[i])
}

/// The number that a sequence of decimal digits denotes.
pub open spec fn decimal_value(s: Seq<char>) -> int
    decreases s.len(),
{
    if s.len() == 0 {
        0
    } else {
        decimal_value(s.drop_last()) * 10 + (s.last() as int - '0' as int)
    }
}

/// The part of an integer lexeme that follows its optional sign.
pub open spec fn unsigned_part(s: Seq<char>) -> Seq<char> {
    if s.len() > 0 && (s[0] == '-' || s[0] == '+') {
        s.subrange(1, s.len() as int)
    } else {
        s
    }
}

/// The value of `s` as a 32-bit integer literal: an optional sign, then one or
/// more decimal digits, denoting a number that an `i32` holds. `None` for any
/// other text.
pub open spec fn integer_value(s: Seq<char>) -> Option<i32> {
    let digits = unsigned_part(s);
    let magnitude = decimal_value(digits);
    let value = if s.len() > 0 && s[0] == '-' {
        -magnitude
    } else {
        magnitude
    };
    if digits.len() > 0 && all_digits(digits) && i32::MIN <= value <= i32::MAX {
        Some(value as i32)
    } else {
        None
    }
}

/// Whether `s` has the shape of a quoted string literal.
pub open spec fn is_quoted(s: Seq<char>) -> bool {
    s.len() > 0 && s[0] == '"' && s.last() == '"'
}

/// The kind of a lexeme, which depends on its text alone: exact punctuation,
/// then the quoted-string shape, then the integer shape, else an identifier.
pub open spec fn classify(lexeme: Seq<char>) -> TokenType {
    if lexeme.len() == 1 && single_punctuation(lexeme[0]) is Some {
        single_punctuation(lexeme[0])->0
    } else if lexeme.len() == 2 && double_punctuation(lexeme[0], lexeme[1]) is Some {
        double_punctuation(lexeme[0], lexeme[1])->0
    } else if is_quoted(lexeme) {
        TokenType::ConstStringExpression
    } else if integer_value(lexeme) is Some {
        TokenType::ConstIntegerExpression
    } else {
        TokenType::Identifier
    }
}

/// The first `k` digits of a number denote no more than the number.
pub proof fn lemma_decimal_value_bounds(s: Seq<char>, k: int)
    requires
        all_digits(s),
        0 <= k <= s.len(),
    ensures
        0 <= decimal_value(s.take(k)) <= decimal_value(s),
    decreases s.len() - k,
{
    lemma_decimal_value_nonnegative(s.take(k));
    if k == s.len() {
        assert(s.take(k) =~= s);
    } else {
        lemma_decimal_value_bounds(s, k + 1);
        assert(s.take(k + 1).drop_last() =~= s.take(k));
        assert(s.take(k + 1).last() == s[k]);
    }
}

/// Digits denote no negative number.
pub proof fn lemma_decimal_value_nonnegative(s: Seq<char>)
    requires
        all_digits(s),
    ensures
        0 <= decimal_value(s),
    decreases s.len(),
{
    if s.len() > 0 {
        lemma_decimal_value_nonnegative(s.drop_last());
    }
}

fn single_punctuation_of(c: char) -> (kind: Option<TokenType>)
    ensures
        kind == single_punctuation(c),
{
    if c == '(' {
        Some(TokenType::BracketOpen)
    } else if c == ')' {
        Some(TokenType::BracketClose)
    } else if c == '{' {
        Some(TokenType::CurlyBracketOpen)
    } else if c == '}' {
        Some(TokenType::CurlyBracketClose)
    } else if c == '[' {
        Some(TokenType::SquareBracketOpen)
    } else if c == ']' {
        Some(TokenType::SquareBracketClose)
    } else if c == '=' {
        Some(TokenType::Assign)
    } else if c == '>' {
        Some(TokenType::GreaterThan)
    } else if c == '<' {
        Some(TokenType::LowerThan)
    } else if c == ',' {
        Some(TokenType::Comma)
    } else if c == ';' {
        Some(TokenType::Semicolon)
    } else if c == '+' {
        Some(TokenType::Plus)
    } else if c == '-' {
        Some(TokenType::Minus)
    } else if c == '/' {
        Some(TokenType::Divide)
    } else if c == '*' {
        Some(TokenType::Multiply)
    } else {
        None
    }
}

fn double_punctuation_of(first: char, second: char) -> (kind: Option<TokenType>)
    ensures
        kind == double_punctuation(first, second),
{
    if first == '=' && second == '=' {
        Some(TokenType::Equal)
    } else if first == '!' && second == '=' {
        Some(TokenType::NotEqual)
    } else if first == '>' && second == '=' {
        Some(TokenType::GreaterEqualThan)
    } else if first == '<' && second == '=' {
        Some(TokenType::LowerEqualThan)
    } else if first == '&' && second == '&' {
        Some(TokenType::And)
    } else if first == '|' && second == '|' {
        Some(TokenType::Or)
    } else {
        None
    }
}

/// Reads `chars` as a 32-bit integer literal.
pub fn parse_integer(chars: &Vec<char>) -> (value: Option<i32>)
    ensures
        value == integer_value(chars@),
{
    let n = chars.len();
    if n == 0 {
        return None;
    }
    let negative = chars[0] == '-';
    let start: usize = if chars[0] == '-' || chars[0] == '+' {
        1
    } else {
        0
    };
    if start == n {
        return None;
    }
    let ghost digits = unsigned_part(chars@);
    assert(digits =~= chars@.subrange(start as int, n as int));
    let mut magnitude: i64 = 0;
    let mut i: usize = start;
    while i < n
        invariant
            start <= i <= n,
            n == chars.len(),
            digits == chars@.subrange(start as int, n as int),
            digits == unsigned_part(chars@),
            all_digits(digits.take(i - start)),
            magnitude == decimal_value(digits.take(i - start)),
            0 <= magnitude <= 0x8000_0000,
        decreases n - i,
    {
        let c = chars[i];
        if !(c >= '0' && c <= '9') {
            assert(!is_digit(digits[i - start]));
            assert(!all_digits(digits));
            return None;
        }
        let digit: i64 = (c as u32 - '0' as u32) as i64;
        let next: i64 = magnitude * 10 + digit;
        proof {
            let longer = digits.take(i - start + 1);
            assert(longer.drop_last() =~= digits.take(i - start));
            assert(longer.last() == c);
            assert forall|j: int| 0 <= j < longer.len() implies is_digit(#[trigger] longer[j]) by {
                if j < i - start {
                    assert(longer[j] == digits.take(i - start)[j]);
                }
            }
            if next > 0x8000_0000 && all_digits(digits) {
                lemma_decimal_value_bounds(digits, i - start + 1);
                assert(decimal_value(digits) > 0x8000_0000);
            }
        }
        if next > 0x8000_0000 {
            return None;
        }
        magnitude = next;
        i += 1;
    }
    assert(digits.take(n - start) =~= digits);
    if negative {
        Some((-magnitude) as i32)
    } else if magnitude > 0x7fff_ffff {
        None
    } else {
        Some(magnitude as i32)
    }
}

/// One lexical token: its text, and a cache of its kind.
#[derive(Debug)]
pub struct Token {
    /// The kind kept from an earlier computation, or `Unknown`.
    pub token_type: TokenType,
    /// The lexeme.
    pub value: String,
    pub token_start: u32,
    pub token_end: u32,
}

impl View for Token {
    type V = Seq<char>;

    /// A token is its lexeme.
    open spec fn view(&self) -> Seq<char> {
        self.value@
    }
}

impl Token {
    /// The kind kept from an earlier computation, if there was one.
    pub open spec fn cached(&self) -> Option<TokenType> {
        if self.token_type == TokenType::Unknown {
            None
        } else {
            Some(self.token_type)
        }
    }

    /// The kind is still to be computed, or the kind kept is that of the
    /// lexeme. It holds of every token until its lexeme is written to.
    pub open spec fn wf(&self) -> bool {
        self.cached() is None || self.cached() == Some(classify(self@))
    }

    /// The offsets given to `new`.
    pub open spec fn span(&self) -> (u32, u32) {
        (self.token_start, self.token_end)
    }

    /// A token with the lexeme `value`, between the offsets `token_start` and
    /// `token_end` of the source; its kind is still to be computed.
    pub fn new(value: String, token_start: u32, token_end: u32) -> (token: Token)
        ensures
            token.cached() is None,
            token@ == value@,
            token.span() == (token_start, token_end),
    {
        Token { token_type: TokenType::Unknown, value, token_start, token_end }
    }

    /// The lexeme.
    pub fn lexeme(&self) -> (text: &String)
        ensures
            text@ == self@,
    {
        &self.value
    }

    /// The kind of the token, computed from its lexeme.
    pub fn get_calculated_token_type(&self) -> (kind: TokenType)
        ensures
            kind == classify(self@),
    {
        let chars = chars_of(self.value.as_str());
        let n = chars.len();
        if n == 1 {
            if let Some(kind) = single_punctuation_of(chars[0]) {
                return kind;
            }
        }
        if n == 2 {
            if let Some(kind) = double_punctuation_of(chars[0], chars[1]) {
                return kind;
            }
        }
        if n > 0 && chars[0] == '"' && chars[n - 1] == '"' {
            TokenType::ConstStringExpression
        } else if parse_integer(&chars).is_some() {
            TokenType::ConstIntegerExpression
        } else {
            TokenType::Identifier
        }
    }

    /// The kind of the token, which is computed at the first call and kept.
    pub fn get_token_type(&mut self) -> (kind: TokenType)
        requires
            old(self).wf(),
        ensures
            kind == classify(old(self)@),
            final(self).cached() == Some(kind),
            final(self)@ == old(self)@,
            final(self).span() == old(self).span(),
    {
        if self.token_type != TokenType::Unknown {
            return self.token_type;
        }
        self.token_type = self.get_calculated_token_type();
        self.token_type
    }
}

impl Clone for Token {
    fn clone(&self) -> (copy: Token)
        ensures
            copy == *self,
    {
        Token {
            token_type: self.token_type,
            value: self.value.clone(),
            token_start: self.token_start,
            token_end: self.token_end,
        }
    }
}

} // verus!
