//! The token stream with its cursor, and the tokenizer that fills it.

use vstd::prelude::*;
use crate::lexical::{
    all_nonempty, flush, is_ignore_char, is_kept_together, is_stop_char, is_string_char,
    lemma_tokens_are_pieces, lemma_tokens_nonempty, pair_at, pieces, read_char, scan, start,
    tokens_of, Scan, ESCAPE_CHAR,
};
use crate::text::chars_of;
use crate::tokens::Token;

verus! {

/// The `usize` that stands for a cursor position: the position itself, or
/// `usize::MAX` for the position before the first token.
pub open spec fn index_of(position: int) -> usize {
    if position < 0 {
        usize::MAX
    } else {
        position as usize
    }
}

/// The cursor position that a `usize` stands for in a stream of `count`
/// tokens: `usize::MAX` is the position before the first token, and an index
/// past the end is the end.
pub open spec fn position_of(index: usize, count: nat) -> int {
    if index == usize::MAX {
        -1
    } else if index > count {
        count as int
    } else {
        index as int
    }
}

/// The position one step forward of `position`, which stops at the end.
pub open spec fn step_forward(position: int, count: nat) -> int {
    if position < count {
        position + 1
    } else {
        position
    }
}

/// The position one step back of `position`, which stops before the first
/// token.
pub open spec fn step_back(position: int) -> int {
    if 0 <= position {
        position - 1
    } else {
        position
    }
}

/// The token at `position`, if the position addresses one.
pub open spec fn token_at(tokens: Seq<Token>, position: int) -> Option<Token> {
    if 0 <= position < tokens.len() {
        Some(tokens[position])
    } else {
        None
    }
}

/// A sequence of tokens with a cursor and a stack of saved cursor positions.
///
/// The cursor is at a token, or at -1 (before the first token), or at the
/// number of tokens (past the last one).
pub struct Tokenized {
    /// The cursor position, in a type that holds -1 and every number of tokens.
    current_token_index: i128,
    tokens: Vec<Token>,
    /// The saved cursor positions, oldest first.
    remember_list: Vec<i128>,
}

impl View for Tokenized {
    type V = Seq<Seq<char>>;

    /// The lexemes of the tokens, in order.
    open spec fn view(&self) -> Seq<Seq<char>> {
        Seq::new(self.tokens().len(), |i: int| self.tokens()[i]@)
    }
}

impl Tokenized {
    /// The tokens, in order.
    pub closed spec fn tokens(&self) -> Seq<Token> {
        self.tokens@
    }

    /// The cursor position.
    pub closed spec fn position(&self) -> int {
        self.current_token_index as int
    }

    /// The saved positions, oldest first.
    pub closed spec fn checkpoints(&self) -> Seq<int> {
        Seq::new(self.remember_list@.len(), |i: int| self.remember_list@[i] as int)
    }

    /// Every saved position is a cursor position of this stream.
    pub closed spec fn checkpoints_valid(&self) -> bool {
        forall|i: int|
            0 <= i < self.remember_list@.len() ==> -1 <= #[trigger] self.remember_list@[i]
                <= self.tokens@.len()
    }

    /// Every token is well formed.
    pub closed spec fn tokens_valid(&self) -> bool {
        forall|i: int| 0 <= i < self.tokens@.len() ==> (#[trigger] self.tokens@[i]).wf()
    }

    /// What holds of every stream: the cursor is within the stream or just
    /// outside it, every saved position is one of the stream, and every
    /// token is well formed.
    #[verifier::type_invariant]
    pub open spec fn wf(&self) -> bool {
        &&& -1 <= self.position() <= self.tokens().len() <= usize::MAX
        &&& self.checkpoints_valid()
        &&& self.tokens_valid()
    }

    /// A stream of no tokens, with the cursor before the first.
    pub fn new() -> (stream: Tokenized)
        ensures
            stream.tokens() == Seq::<Token>::empty(),
            stream.position() == -1,
            stream.checkpoints() == Seq::<int>::empty(),
    {
        let stream = Tokenized {
            current_token_index: -1,
            tokens: Vec::new(),
            remember_list: Vec::new(),
        };
        assert(stream.checkpoints() =~= Seq::<int>::empty());
        stream
    }

    /// Whether the cursor is at a token.
    pub fn is_currently_in_range(&self) -> (inside: bool)
        ensures
            inside == (0 <= self.position() < self.tokens().len()),
    {
        0 <= self.current_token_index && self.current_token_index < self.tokens.len() as i128
    }

    /// Whether `index` is the place of a token.
    pub fn is_in_range(&self, index: usize) -> (inside: bool)
        ensures
            inside == (index < self.tokens().len()),
    {
        index < self.get_token_count()
    }

    /// The number of tokens.
    pub fn get_token_count(&self) -> (count: usize)
        ensures
            count == self.tokens().len(),
    {
        self.tokens.len()
    }

    /// A copy of the token at place `index`, if there is one.
    pub fn get_token(&self, index: usize) -> (token: Option<Token>)
        ensures
            token == token_at(self.tokens(), index as int),
            token matches Some(t) ==> t.wf(),
    {
        proof {
            use_type_invariant(self);
        }
        if index >= self.get_token_count() {
            return None;
        }
        Some(self.tokens[index].clone())
    }

    /// A copy of the token at the cursor, if the cursor is at one.
    pub fn get_current_token(&self) -> (token: Option<Token>)
        ensures
            token == token_at(self.tokens(), self.position()),
            token matches Some(t) ==> t.wf(),
    {
        proof {
            use_type_invariant(self);
        }
        if 0 <= self.current_token_index && self.current_token_index < self.tokens.len() as i128 {
            Some(self.tokens[self.current_token_index as usize].clone())
        } else {
            None
        }
    }

    /// The cursor position, as `index_of` writes it.
    pub fn get_current_token_index(&self) -> (index: usize)
        ensures
            index == index_of(self.position()),
    {
        proof {
            use_type_invariant(self);
        }
        if self.current_token_index < 0 {
            usize::MAX
        } else {
            self.current_token_index as usize
        }
    }

    /// Moves the cursor to the position that `index` stands for, as
    /// `position_of` reads it.
    pub fn set_current_token_index(&mut self, index: usize)
        ensures
            final(self).position() == position_of(index, old(self).tokens().len()),
            final(self).tokens() == old(self).tokens(),
            final(self).checkpoints() == old(self).checkpoints(),
    {
        proof {
            use_type_invariant(&*self);
        }
        if index == usize::MAX {
            self.current_token_index = -1;
        } else if index > self.tokens.len() {
            self.current_token_index = self.tokens.len() as i128;
        } else {
            self.current_token_index = index as i128;
        }
    }

    /// Moves the cursor one step forward, unless it is past the last token,
    /// and gives the token that it is then at, if it is at one.
    pub fn next(&mut self) -> (token: Option<&Token>)
        ensures
            final(self).position() == step_forward(old(self).position(), old(self).tokens().len()),
            final(self).tokens() == old(self).tokens(),
            final(self).checkpoints() == old(self).checkpoints(),
            match token {
                Some(t) => token_at(old(self).tokens(), final(self).position()) == Some(*t)
                    && t.wf(),
                None => token_at(old(self).tokens(), final(self).position()) is None,
            },
    {
        proof {
            use_type_invariant(&*self);
        }
        if self.current_token_index < self.tokens.len() as i128 {
            self.current_token_index += 1;
        }
        if 0 <= self.current_token_index && self.current_token_index < self.tokens.len() as i128 {
            Some(&self.tokens[self.current_token_index as usize])
        } else {
            None
        }
    }

    /// Keeps the first `count` saved positions.
    fn drop_checkpoints(&mut self, count: usize)
        requires
            count <= old(self).remember_list@.len(),
        ensures
            final(self).remember_list@ == old(self).remember_list@.take(count as int),
            final(self).current_token_index == old(self).current_token_index,
            final(self).tokens == old(self).tokens,
    {
        proof {
            use_type_invariant(&*self);
        }
        let mut marks: Vec<i128> = Vec::new();
        std::mem::swap(&mut marks, &mut self.remember_list);
        marks.truncate(count);
        self.remember_list = marks;
    }

    /// Appends `token` to the stream.
    fn push(&mut self, token: Token)
        requires
            token.wf(),
        ensures
            final(self).tokens() == old(self).tokens().push(token),
            final(self)@ == old(self)@.push(token@),
            final(self).position() == old(self).position(),
            final(self).checkpoints() == old(self).checkpoints(),
    {
        proof {
            use_type_invariant(&*self);
        }
        let mut taken = Tokenized::new();
        std::mem::swap(self, &mut taken);
        let Tokenized { current_token_index, mut tokens, remember_list } = taken;
        tokens.push(token);
        assert(tokens@.len() == tokens.len());
        *self = Tokenized { current_token_index, tokens, remember_list };
        assert(self.checkpoints() =~= old(self).checkpoints());
        assert(self@ =~= old(self)@.push(token@));
    }

    /// The token `jump_count` places after the cursor, if there is one.
    pub fn peek_next(&self, jump_count: usize) -> (token: Option<&Token>)
        ensures
            match token {
                Some(t) => token_at(self.tokens(), self.position() + jump_count) == Some(*t)
                    && t.wf(),
                None => token_at(self.tokens(), self.position() + jump_count) is None,
            },
    {
        proof {
            use_type_invariant(self);
        }
        let count = self.tokens.len();
        let target: i128 = self.current_token_index + jump_count as i128;
        if 0 <= target && target < count as i128 {
            Some(&self.tokens[target as usize])
        } else {
            None
        }
    }

    /// Moves the cursor one step back, unless it is before the first token,
    /// and gives the token that it is then at, if it is at one.
    pub fn prev(&mut self) -> (token: Option<&Token>)
        ensures
            final(self).position() == step_back(old(self).position()),
            final(self).tokens() == old(self).tokens(),
            final(self).checkpoints() == old(self).checkpoints(),
            match token {
                Some(t) => token_at(old(self).tokens(), final(self).position()) == Some(*t)
                    && t.wf(),
                None => token_at(old(self).tokens(), final(self).position()) is None,
            },
    {
        proof {
            use_type_invariant(&*self);
        }
        if self.current_token_index < 0 {
            return None;
        }
        self.current_token_index -= 1;
        if self.current_token_index < 0 {
            return None;
        }
        Some(&self.tokens[self.current_token_index as usize])
    }

    /// The token `jump_count` places before the cursor, if there is one.
    pub fn peek_prev(&self, jump_count: usize) -> (token: Option<&Token>)
        ensures
            match token {
                Some(t) => token_at(self.tokens(), self.position() - jump_count) == Some(*t)
                    && t.wf(),
                None => token_at(self.tokens(), self.position() - jump_count) is None,
            },
    {
        proof {
            use_type_invariant(self);
        }
        let count = self.tokens.len();
        let target: i128 = self.current_token_index - jump_count as i128;
        if 0 <= target && target < count as i128 {
            Some(&self.tokens[target as usize])
        } else {
            None
        }
    }

    /// Saves the cursor position on the stack; the result is the place of the
    /// saved position in the stack.
    pub fn remember(&mut self) -> (mark: usize)
        ensures
            final(self).checkpoints() == old(self).checkpoints().push(old(self).position()),
            mark == old(self).checkpoints().len(),
            final(self).position() == old(self).position(),
            final(self).tokens() == old(self).tokens(),
    {
        proof {
            use_type_invariant(&*self);
        }
        let mut marks: Vec<i128> = Vec::new();
        std::mem::swap(&mut marks, &mut self.remember_list);
        marks.push(self.current_token_index);
        let mark = marks.len() - 1;
        self.remember_list = marks;
        assert(self.checkpoints() =~= old(self).checkpoints().push(old(self).position()));
        mark
    }

    /// Moves the cursor to the position saved last and drops that position;
    /// with nothing saved, moves the cursor to 0.
    pub fn forget(&mut self)
        ensures
            old(self).checkpoints().len() > 0 ==> {
                &&& final(self).position() == old(self).checkpoints().last()
                &&& final(self).checkpoints() == old(self).checkpoints().drop_last()
            },
            old(self).checkpoints().len() == 0 ==> {
                &&& final(self).position() == 0
                &&& final(self).checkpoints() == old(self).checkpoints()
            },
            final(self).tokens() == old(self).tokens(),
    {
        proof {
            use_type_invariant(&*self);
        }
        let count = self.remember_list.len();
        if count > 0 {
            self.current_token_index = self.remember_list[count - 1];
            self.drop_checkpoints(count - 1);
            assert(self.checkpoints() =~= old(self).checkpoints().drop_last());
        } else {
            self.current_token_index = 0;
            assert(self.checkpoints() =~= old(self).checkpoints());
        }
    }

    /// Moves the cursor to the position saved at place `index` of the stack,
    /// and drops that position and every one saved after it. Does nothing if
    /// the stack holds no such place.
    pub fn forget_until(&mut self, index: usize)
        ensures
            index < old(self).checkpoints().len() ==> {
                &&& final(self).position() == old(self).checkpoints()[index as int]
                &&& final(self).checkpoints() == old(self).checkpoints().take(index as int)
            },
            index >= old(self).checkpoints().len() ==> {
                &&& final(self).position() == old(self).position()
                &&& final(self).checkpoints() == old(self).checkpoints()
            },
            final(self).tokens() == old(self).tokens(),
    {
        proof {
            use_type_invariant(&*self);
        }
        if index < self.remember_list.len() {
            self.current_token_index = self.remember_list[index];
            self.drop_checkpoints(index);
            assert(self.checkpoints() =~= old(self).checkpoints().take(index as int));
        } else {
            assert(self.checkpoints() =~= old(self).checkpoints());
        }
    }

    /// Moves the cursor to place 0.
    pub fn reset_index(&mut self)
        ensures
            final(self).position() == 0,
            final(self).tokens() == old(self).tokens(),
            final(self).checkpoints() == old(self).checkpoints(),
    {
        proof {
            use_type_invariant(&*self);
        }
        self.current_token_index = 0;
    }
}

/// The state of the tokenizer.
#[derive(Debug, PartialEq, Eq, Clone, Copy, Structural)]
pub enum TokenizerState {
    /// Accumulating an identifier, a number or a run of other characters.
    Unknown,
    /// Inside a quoted string literal.
    String,
    /// Inside a block comment.
    StartStopComment,
    /// Inside a line comment.
    LineComment,
    /// At a character that ends the token being accumulated.
    StopChar,
}

fn is_string_char_exec(c: char) -> (b: bool)
    ensures
        b == is_string_char(c),
{
    c == '"' || c == '\''
}

fn is_stop_char_exec(c: char) -> (b: bool)
    ensures
        b == is_stop_char(c),
{
    c == ' ' || c == ',' || c == '*' || c == '/' || c == '|' || c == '&' || c == '[' || c == ']'
        || c == '(' || c == ')' || c == '{' || c == '}' || c == '+' || c == '$' || c == '-' || c
        == '@' || c == '\n' || c == '\r' || c == ';' || c == '^' || c == ':' || c == '=' || c == '<'
        || c == '>' || c == '"' || c == '\''
}

fn is_ignore_char_exec(c: char) -> (b: bool)
    ensures
        b == is_ignore_char(c),
{
    c == ' ' || c == '\n' || c == '\r' || c == '"' || c == '\''
}

fn is_kept_together_exec(first: char, second: char) -> (b: bool)
    ensures
        b == is_kept_together(first, second),
{
    (first == '=' && second == '=') || (first == '!' && second == '=') || (first == '>' && second
        == '=') || (first == '<' && second == '=') || (first == '&' && second == '&') || (first
        == '|' && second == '|') || (first == '.' && second == '.')
}

/// Turns source text into tokens, one character at a time.
pub struct Tokenizer {
    source: Vec<char>,
    buffer: String,
    current_string_char: char,
    string_escaped: bool,
    /// Whether the character to read next is the `*` of a `/*` or the `/`
    /// of a `*/` that was read last.
    skip_next: bool,
    state: TokenizerState,
    current_char_index: usize,
}

impl Tokenizer {
    /// The source being read.
    pub closed spec fn source(&self) -> Seq<char> {
        self.source@
    }

    /// The state of the tokenizer, given the lexemes of the tokens made so far.
    pub closed spec fn reading(&self, emitted: Seq<Seq<char>>) -> Scan {
        Scan {
            state: self.state,
            buffer: self.buffer@,
            quote: self.current_string_char,
            escaped: self.string_escaped,
            skip: self.skip_next,
            index: self.current_char_index as int,
            emitted,
        }
    }

    /// A tokenizer in its starting state, with no source.
    pub fn new() -> (tokenizer: Tokenizer)
        ensures
            tokenizer.source() == Seq::<char>::empty(),
            tokenizer.reading(Seq::empty()) == start(),
    {
        Tokenizer {
            source: Vec::new(),
            buffer: String::new(),
            current_string_char: ' ',
            string_escaped: false,
            skip_next: false,
            state: TokenizerState::Unknown,
            current_char_index: 0,
        }
    }

    /// The tokens of `source`, with the cursor before the first of them.
    pub fn tokenize(&mut self, source: &str) -> (tokenized: Tokenized)
        ensures
            tokenized@ == tokens_of(source@),
            all_nonempty(tokenized@),
            pieces(source@, tokenized@, source@.len() as int),
            tokenized.position() == -1,
            tokenized.checkpoints() == Seq::<int>::empty(),
            final(self).source() == source@,
            final(self).reading(tokenized@) == flush(scan(source@, start())),
    {
        let mut tokenized = Tokenized::new();
        self.source = chars_of(source);
        self.buffer = String::new();
        self.current_string_char = ' ';
        self.string_escaped = false;
        self.skip_next = false;
        self.state = TokenizerState::Unknown;
        self.current_char_index = 0;
        assert(tokenized@ =~= Seq::<Seq<char>>::empty());
        while self.current_char_index < self.source.len()
            invariant
                self.source@ == source@,
                scan(source@, self.reading(tokenized@)) == scan(source@, start()),
                tokenized.position() == -1,
                tokenized.checkpoints() == Seq::<int>::empty(),
            decreases self.source.len() - self.current_char_index,
        {
            let current_char = self.source[self.current_char_index];
            let next_char = if self.current_char_index + 1 < self.source.len() {
                Some(self.source[self.current_char_index + 1])
            } else {
                None
            };
            self.do_read_char(current_char, next_char, &mut tokenized);
            self.current_char_index += 1;
        }
        self.add_token(&mut tokenized);
        proof {
            lemma_tokens_nonempty(source@);
            lemma_tokens_are_pieces(source@);
        }
        tokenized
    }

    /// Reads `current_char`, which `next_char` follows, and appends the tokens
    /// that it completes to `tokenized`.
    pub fn do_read_char(
        &mut self,
        current_char: char,
        next_char: Option<char>,
        tokenized: &mut Tokenized,
    )
        ensures
            final(self).source() == old(self).source(),
            final(self).reading(final(tokenized)@) == read_char(
                old(self).reading(old(tokenized)@),
                old(self).source(),
                current_char,
                next_char,
            ),
            final(self).reading(final(tokenized)@).emitted == final(tokenized)@,
            old(tokenized).tokens().is_prefix_of(final(tokenized).tokens()),
            final(tokenized).position() == old(tokenized).position(),
            final(tokenized).checkpoints() == old(tokenized).checkpoints(),
    {
        if self.skip_next {
            self.skip_next = false;
        } else if self.state == TokenizerState::Unknown && is_string_char_exec(current_char) {
            self.set_state_and_add_token(TokenizerState::String, tokenized);
            self.current_string_char = current_char;
            self.buffer.push(current_char);
        } else if self.state == TokenizerState::Unknown && current_char == '/' && next_char
            == Some('*') {
            self.set_state_and_add_token(TokenizerState::StartStopComment, tokenized);
            self.skip_next = true;
        } else if self.state == TokenizerState::Unknown && current_char == '/' && next_char
            == Some('/') {
            self.set_state_and_add_token(TokenizerState::LineComment, tokenized);
        } else {
            if self.state == TokenizerState::Unknown && is_stop_char_exec(current_char) {
                self.set_state_and_add_token(TokenizerState::StopChar, tokenized);
            }
            match self.state {
                TokenizerState::Unknown => {
                    self.buffer.push(current_char);
                },
                TokenizerState::String => {
                    let was_escaped = self.string_escaped;
                    self.string_escaped = current_char == ESCAPE_CHAR;
                    self.buffer.push(current_char);
                    if !was_escaped && !self.string_escaped && current_char
                        == self.current_string_char {
                        self.set_state_and_add_token(TokenizerState::Unknown, tokenized);
                    }
                },
                TokenizerState::StartStopComment => {
                    if current_char == '*' && next_char == Some('/') {
                        self.state = TokenizerState::Unknown;
                        self.skip_next = true;
                    }
                },
                TokenizerState::LineComment => {
                    if current_char == '\n' || current_char == '\r' {
                        self.set_state_and_add_token(TokenizerState::Unknown, tokenized);
                    }
                },
                TokenizerState::StopChar => {
                    if self.is_next_sequence() {
                        assert(self.source@.len() == self.source.len());
                        self.buffer.push(self.source[self.current_char_index]);
                        self.buffer.push(self.source[self.current_char_index + 1]);
                        self.advance_chars(1);
                    } else if !is_ignore_char_exec(current_char) {
                        self.buffer.push(current_char);
                    }
                    self.set_state_and_add_token(TokenizerState::Unknown, tokenized);
                },
            }
        }
    }

    /// Whether the two characters at the place being read are kept together.
    fn is_next_sequence(&self) -> (found: bool)
        ensures
            found == pair_at(self.source@, self.current_char_index as int),
    {
        let start_index = self.current_char_index;
        if start_index < self.source.len() && start_index + 1 < self.source.len() {
            is_kept_together_exec(self.source[start_index], self.source[start_index + 1])
        } else {
            false
        }
    }

    fn advance_chars(&mut self, count: usize)
        requires
            old(self).current_char_index + count <= usize::MAX,
        ensures
            final(self).current_char_index == old(self).current_char_index + count,
            final(self).source == old(self).source,
            final(self).buffer == old(self).buffer,
            final(self).current_string_char == old(self).current_string_char,
            final(self).string_escaped == old(self).string_escaped,
            final(self).skip_next == old(self).skip_next,
            final(self).state == old(self).state,
    {
        self.current_char_index += count;
    }

    /// Makes a token of the accumulated text, if there is any.
    fn add_token(&mut self, tokenized: &mut Tokenized)
        ensures
            final(self).reading(final(tokenized)@) == flush(old(self).reading(old(tokenized)@)),
            final(self).source == old(self).source,
            final(self).state == old(self).state,
            final(self).current_string_char == old(self).current_string_char,
            final(self).string_escaped == old(self).string_escaped,
            final(self).skip_next == old(self).skip_next,
            final(self).current_char_index == old(self).current_char_index,
            old(tokenized).tokens().is_prefix_of(final(tokenized).tokens()),
            final(tokenized).position() == old(tokenized).position(),
            final(tokenized).checkpoints() == old(tokenized).checkpoints(),
    {
        if self.buffer.as_str().is_empty() {
            return ;
        }
        let mut text = String::new();
        std::mem::swap(&mut text, &mut self.buffer);
        tokenized.push(Token::new(text, 0, 0));
    }

    fn set_state_and_add_token(&mut self, state: TokenizerState, tokenized: &mut Tokenized)
        ensures
            final(self).reading(final(tokenized)@) == flush(
                Scan { state, ..old(self).reading(old(tokenized)@) },
            ),
            final(self).source == old(self).source,
            final(self).state == state,
            final(self).current_string_char == old(self).current_string_char,
            final(self).string_escaped == old(self).string_escaped,
            final(self).skip_next == old(self).skip_next,
            final(self).current_char_index == old(self).current_char_index,
            old(tokenized).tokens().is_prefix_of(final(tokenized).tokens()),
            final(tokenized).position() == old(tokenized).position(),
            final(tokenized).checkpoints() == old(tokenized).checkpoints(),
    {
        self.state = state;
        self.add_token(tokenized);
    }
}

/// A saved index gives back the position it was taken at, as long as that
/// position is a `usize` below `usize::MAX`.
pub proof fn lemma_index_gives_position_back(position: int, count: nat)
    requires
        -1 <= position <= count,
        position < usize::MAX,
    ensures
        position_of(index_of(position), count) == position,
{
}

} // verus!
