//! The lexical rules: character classes, and tokenization as a state machine
//! that reads the source one character at a time.

use vstd::prelude::*;
use crate::tokenizer::TokenizerState;

verus! {

/// The character that escapes the next one inside a string literal.
pub const ESCAPE_CHAR: char = '\\';

/// A character that opens and closes a string literal.
pub open spec fn is_string_char(c: char) -> bool {
    c == '"' || c == '\''
}

/// A character that ends the token being accumulated.
pub open spec fn is_stop_char(c: char) -> bool {
    ||| c == ' '
    ||| c == ','
    ||| c == '*'
    ||| c == '/'
    ||| c == '|'
    ||| c == '&'
    ||| c == '['
    ||| c == ']'
    ||| c == '('
    ||| c == ')'
    ||| c == '{'
    ||| c == '}'
    ||| c == '+'
    ||| c == '$'
    ||| c == '-'
    ||| c == '@'
    ||| c == '\n'
    ||| c == '\r'
    ||| c == ';'
    ||| c == '^'
    ||| c == ':'
    ||| c == '='
    ||| c == '<'
    ||| c == '>'
    ||| c == '"'
    ||| c == '\''
}

/// A stop character that makes no token of its own.
pub open spec fn is_ignore_char(c: char) -> bool {
    c == ' ' || c == '\n' || c == '\r' || c == '"' || c == '\''
}

/// Two characters that are kept together as one token.
pub open spec fn is_kept_together(first: char, second: char) -> bool {
    ||| first == '=' && second == '='
    ||| first == '!' && second == '='
    ||| first == '>' && second == '='
    ||| first == '<' && second == '='
    ||| first == '&' && second == '&'
    ||| first == '|' && second == '|'
    ||| first == '.' && second == '.'
}

/// Whether the two characters of `source` that start at `index` are kept together.
pub open spec fn pair_at(source: Seq<char>, index: int) -> bool {
    0 <= index && index + 1 < source.len() && is_kept_together(source[index], source[index + 1])
}

/// The character of `source` that follows the one at `index`, if there is one.
pub open spec fn next_of(source: Seq<char>, index: int) -> Option<char> {
    if 0 <= index + 1 < source.len() {
        Some(source[index + 1])
    } else {
        None
    }
}

/// The state of the tokenizer between two characters.
pub struct Scan {
    pub state: TokenizerState,
    /// The text accumulated for the token in progress.
    pub buffer: Seq<char>,
    /// The quote that opened the string literal in progress.
    pub quote: char,
    /// Whether the character read last, inside a string literal, was the
    /// escape character.
    pub escaped: bool,
    /// Whether the character to read belongs to what was read last: it is
    /// the `*` of a `/*` or the `/` of a `*/`.
    pub skip: bool,
    /// The place in the source of the character to read.
    pub index: int,
    /// The lexemes of the tokens made so far.
    pub emitted: Seq<Seq<char>>,
}

/// The state in which tokenization starts.
pub open spec fn start() -> Scan {
    Scan {
        state: TokenizerState::Unknown,
        buffer: Seq::empty(),
        quote: ' ',
        escaped: false,
        skip: false,
        index: 0,
        emitted: Seq::empty(),
    }
}

/// Makes a token of the accumulated text, if there is any.
pub open spec fn flush(s: Scan) -> Scan {
    if s.buffer.len() > 0 {
        Scan { buffer: Seq::empty(), emitted: s.emitted.push(s.buffer), ..s }
    } else {
        s
    }
}

/// Reads `c` inside a string literal: the character joins the literal, and an
/// unescaped closing quote completes it.
pub open spec fn read_string_char(s: Scan, c: char) -> Scan {
    let escaped = c == ESCAPE_CHAR;
    let buffer = s.buffer.push(c);
    if !s.escaped && !escaped && c == s.quote {
        flush(Scan { state: TokenizerState::Unknown, buffer, escaped, ..s })
    } else {
        Scan { buffer, escaped, ..s }
    }
}

/// Reads the stop character `c`: two characters kept together make one token
/// and move the scan one place further; otherwise `c` makes a token of its own
/// unless it is ignored.
pub open spec fn read_stop_char(s: Scan, source: Seq<char>, c: char) -> Scan {
    if pair_at(source, s.index) {
        flush(
            Scan {
                state: TokenizerState::Unknown,
                buffer: s.buffer.push(source[s.index]).push(source[s.index + 1]),
                index: s.index + 1,
                ..s
            },
        )
    } else if !is_ignore_char(c) {
        flush(Scan { state: TokenizerState::Unknown, buffer: s.buffer.push(c), ..s })
    } else {
        flush(Scan { state: TokenizerState::Unknown, ..s })
    }
}

/// One step of the tokenizer: reads the character `c`, which `next` follows
/// in the source.
///
/// Outside strings and comments, a quote starts a string literal, `/*` a
/// block comment and `//` a line comment, each after a flush; a stop
/// character is read as `read_stop_char` says, after a flush; any other
/// character joins the accumulated text. A block comment lasts from its
/// `/*` to the first `*/` after it, a line comment to the end of the line;
/// no character of a comment, of its opener or of its terminator is made
/// part of a token.
pub open spec fn read_char(s: Scan, source: Seq<char>, c: char, next: Option<char>) -> Scan {
    if s.skip {
        Scan { skip: false, ..s }
    } else {
        read_fresh_char(s, source, c, next)
    }
}

/// Reads a character that does not belong to what was read before it.
pub open spec fn read_fresh_char(s: Scan, source: Seq<char>, c: char, next: Option<char>) -> Scan {
    match s.state {
        TokenizerState::Unknown => {
            if is_string_char(c) {
                let flushed = flush(s);
                Scan {
                    state: TokenizerState::String,
                    quote: c,
                    buffer: flushed.buffer.push(c),
                    ..flushed
                }
            } else if c == '/' && next == Some('*') {
                Scan { state: TokenizerState::StartStopComment, skip: true, ..flush(s) }
            } else if c == '/' && next == Some('/') {
                Scan { state: TokenizerState::LineComment, ..flush(s) }
            } else if is_stop_char(c) {
                read_stop_char(flush(s), source, c)
            } else {
                Scan { buffer: s.buffer.push(c), ..s }
            }
        },
        TokenizerState::String => read_string_char(s, c),
        TokenizerState::StartStopComment => {
            if c == '*' && next == Some('/') {
                Scan { state: TokenizerState::Unknown, skip: true, ..s }
            } else {
                s
            }
        },
        TokenizerState::LineComment => {
            if c == '\n' || c == '\r' {
                flush(Scan { state: TokenizerState::Unknown, ..s })
            } else {
                s
            }
        },
        TokenizerState::StopChar => read_stop_char(s, source, c),
    }
}

/// Reads the source from the place of `s` to its end.
pub open spec fn scan(source: Seq<char>, s: Scan) -> Scan
    decreases source.len() - s.index,
{
    if 0 <= s.index < source.len() {
        let read = read_char(s, source, source[s.index], next_of(source, s.index));
        scan(source, Scan { index: read.index + 1, ..read })
    } else {
        s
    }
}

/// The lexemes of the tokens of `source`, in order.
pub open spec fn tokens_of(source: Seq<char>) -> Seq<Seq<char>> {
    flush(scan(source, start())).emitted
}

/// No lexeme is empty.
pub open spec fn all_nonempty(lexemes: Seq<Seq<char>>) -> bool {
    forall|i: int| 0 <= i < lexemes.len() ==> (#[trigger] lexemes[i]).len() > 0
}

/// A step of the tokenizer keeps the tokens made before it, and makes no empty one.
pub proof fn lemma_read_char_emits_nonempty(s: Scan, source: Seq<char>, c: char, next: Option<char>)
    requires
        all_nonempty(s.emitted),
    ensures
        all_nonempty(read_char(s, source, c, next).emitted),
        s.emitted.len() <= read_char(s, source, c, next).emitted.len(),
        read_char(s, source, c, next).emitted.take(s.emitted.len() as int) == s.emitted,
        s.index <= read_char(s, source, c, next).index <= s.index + 1,
{
    let r = read_char(s, source, c, next);
    assert(r.emitted.take(s.emitted.len() as int) =~= s.emitted);
}

/// Reading a source to its end makes no empty token.
pub proof fn lemma_scan_emits_nonempty(source: Seq<char>, s: Scan)
    requires
        all_nonempty(s.emitted),
    ensures
        all_nonempty(scan(source, s).emitted),
    decreases source.len() - s.index,
{
    if 0 <= s.index < source.len() {
        let read = read_char(s, source, source[s.index], next_of(source, s.index));
        lemma_read_char_emits_nonempty(s, source, source[s.index], next_of(source, s.index));
        lemma_scan_emits_nonempty(source, Scan { index: read.index + 1, ..read });
    }
}

/// Every token of every source has a lexeme that is not empty.
pub proof fn lemma_tokens_nonempty(source: Seq<char>)
    ensures
        all_nonempty(tokens_of(source)),
{
    lemma_scan_emits_nonempty(source, start());
}

/// Whether `piece` stands in `source` from place `start` on.
pub open spec fn stands(source: Seq<char>, start: int, piece: Seq<char>) -> bool {
    &&& 0 <= start
    &&& start + piece.len() <= source.len()
    &&& source.subrange(start, start + piece.len()) == piece
}

/// Whether the lexemes are pieces of `source` that stand in it in their
/// order, without overlap, and end at or before place `limit`.
pub open spec fn pieces(source: Seq<char>, lexemes: Seq<Seq<char>>, limit: int) -> bool
    decreases lexemes.len(),
{
    if lexemes.len() == 0 {
        0 <= limit <= source.len()
    } else {
        exists|start: int|
            {
                &&& #[trigger] stands(source, start, lexemes.last())
                &&& start + lexemes.last().len() <= limit <= source.len()
                &&& pieces(source, lexemes.drop_last(), start)
            }
    }
}

/// Pieces that end before a place end before every later place.
pub proof fn lemma_pieces_widen(source: Seq<char>, lexemes: Seq<Seq<char>>, limit: int, later: int)
    requires
        pieces(source, lexemes, limit),
        limit <= later <= source.len(),
    ensures
        pieces(source, lexemes, later),
{
    if lexemes.len() > 0 {
        let start = choose|start: int|
            {
                &&& #[trigger] stands(source, start, lexemes.last())
                &&& start + lexemes.last().len() <= limit <= source.len()
                &&& pieces(source, lexemes.drop_last(), start)
            };
        assert(stands(source, start, lexemes.last()));
    }
}

/// A piece that stands after some pieces makes pieces with them.
pub proof fn lemma_pieces_push(
    source: Seq<char>,
    lexemes: Seq<Seq<char>>,
    start: int,
    piece: Seq<char>,
    limit: int,
)
    requires
        pieces(source, lexemes, start),
        stands(source, start, piece),
        start + piece.len() <= limit <= source.len(),
    ensures
        pieces(source, lexemes.push(piece), limit),
{
    let longer = lexemes.push(piece);
    assert(longer.drop_last() =~= lexemes);
    assert(longer.last() == piece);
    assert(stands(source, start, longer.last()));
}

/// What holds of the tokenizer before each character that it reads from
/// `source`: the accumulated text is the piece of the source that ends at
/// the place to read, and the tokens made are pieces that end before it.
pub open spec fn scanned(source: Seq<char>, s: Scan) -> bool {
    &&& 0 <= s.index - s.buffer.len()
    &&& s.index <= source.len()
    &&& s.state != TokenizerState::StopChar
    &&& s.state == TokenizerState::StartStopComment || s.state == TokenizerState::LineComment
        || s.skip ==> s.buffer.len() == 0
    &&& stands(source, s.index - s.buffer.len(), s.buffer)
    &&& pieces(source, s.emitted, s.index - s.buffer.len())
}

/// Flushing keeps the tokens pieces of the source.
pub proof fn lemma_flush_keeps_pieces(source: Seq<char>, s: Scan)
    requires
        0 <= s.index - s.buffer.len(),
        s.index <= source.len(),
        stands(source, s.index - s.buffer.len(), s.buffer),
        pieces(source, s.emitted, s.index - s.buffer.len()),
    ensures
        pieces(source, flush(s).emitted, s.index),
        flush(s).buffer.len() == 0,
{
    if s.buffer.len() > 0 {
        lemma_pieces_push(source, s.emitted, s.index - s.buffer.len(), s.buffer, s.index);
    } else {
        lemma_pieces_widen(source, s.emitted, s.index - s.buffer.len(), s.index);
    }
}

/// Reading one character of the source keeps what `scanned` says.
pub proof fn lemma_read_char_keeps_scanned(source: Seq<char>, s: Scan)
    requires
        scanned(source, s),
        s.index < source.len(),
    ensures
        ({
            let read = read_char(s, source, source[s.index], next_of(source, s.index));
            scanned(source, Scan { index: read.index + 1, ..read })
        }),
{
    if s.skip {
        assert(stands(source, s.index + 1, s.buffer)) by {
            assert(source.subrange(s.index + 1, s.index + 1) =~= s.buffer);
        }
        lemma_pieces_widen(source, s.emitted, s.index, s.index + 1);
    } else {
        lemma_fresh_char_keeps_scanned(source, s);
    }
}

/// Reading one character that does not belong to what was read before it
/// keeps what `scanned` says.
proof fn lemma_fresh_char_keeps_scanned(source: Seq<char>, s: Scan)
    requires
        scanned(source, s),
        s.index < source.len(),
        !s.skip,
    ensures
        ({
            let read = read_fresh_char(s, source, source[s.index], next_of(source, s.index));
            scanned(source, Scan { index: read.index + 1, ..read })
        }),
{
    let i = s.index;
    let c = source[i];
    let next = next_of(source, i);
    let grown = s.buffer.push(c);
    assert(stands(source, i - s.buffer.len(), grown)) by {
        assert(source.subrange(i - s.buffer.len(), i + 1) =~= grown);
    }
    assert(stands(source, i, seq![c])) by {
        assert(source.subrange(i, i + 1) =~= seq![c]);
    }
    assert(stands(source, i + 1, Seq::<char>::empty())) by {
        assert(source.subrange(i + 1, i + 1) =~= Seq::<char>::empty());
    }
    lemma_flush_keeps_pieces(source, s);
    let flushed = flush(s);
    assert(flushed.buffer =~= Seq::<char>::empty());
    match s.state {
        TokenizerState::Unknown => {
            if is_string_char(c) {
                assert(flushed.buffer.push(c) =~= seq![c]);
            } else if c == '/' && next == Some('*') {
                lemma_pieces_widen(source, flushed.emitted, i, i + 1);
            } else if c == '/' && next == Some('/') {
                lemma_pieces_widen(source, flushed.emitted, i, i + 1);
            } else if is_stop_char(c) {
                if pair_at(source, i) {
                    let pair = Seq::<char>::empty().push(source[i]).push(source[i + 1]);
                    assert(stands(source, i, pair)) by {
                        assert(source.subrange(i, i + 2) =~= pair);
                    }
                    assert(stands(source, i + 2, Seq::<char>::empty())) by {
                        assert(source.subrange(i + 2, i + 2) =~= Seq::<char>::empty());
                    }
                    lemma_pieces_push(source, flushed.emitted, i, pair, i + 2);
                    } else if !is_ignore_char(c) {
                    assert(flushed.buffer.push(c) =~= seq![c]);
                    lemma_pieces_push(source, flushed.emitted, i, seq![c], i + 1);
                    } else {
                    lemma_pieces_widen(source, flushed.emitted, i, i + 1);
                    }
            } else {
            }
        },
        TokenizerState::String => {
            if !s.escaped && c != ESCAPE_CHAR && c == s.quote {
                lemma_pieces_push(source, s.emitted, i - s.buffer.len(), grown, i + 1);
            }
        },
        TokenizerState::StartStopComment => {
            lemma_pieces_widen(source, s.emitted, i, i + 1);
        },
        TokenizerState::LineComment => {
            lemma_pieces_widen(source, s.emitted, i, i + 1);
        },
        TokenizerState::StopChar => {},
    }
}

/// Reading the source to its end keeps what `scanned` says.
pub proof fn lemma_scan_keeps_scanned(source: Seq<char>, s: Scan)
    requires
        scanned(source, s),
    ensures
        scanned(source, scan(source, s)),
    decreases source.len() - s.index,
{
    if 0 <= s.index < source.len() {
        let read = read_char(s, source, source[s.index], next_of(source, s.index));
        lemma_read_char_keeps_scanned(source, s);
        lemma_scan_keeps_scanned(source, Scan { index: read.index + 1, ..read });
    }
}

/// The tokens of a source are pieces of it: each lexeme stands in the source,
/// the lexemes stand in the order of the tokens, and no two of them overlap.
pub proof fn lemma_tokens_are_pieces(source: Seq<char>)
    ensures
        pieces(source, tokens_of(source), source.len() as int),
{
    assert(stands(source, 0, Seq::<char>::empty())) by {
        assert(source.subrange(0, 0) =~= Seq::<char>::empty());
    }
    lemma_scan_keeps_scanned(source, start());
    let end = scan(source, start());
    lemma_flush_keeps_pieces(source, end);
    lemma_pieces_widen(source, flush(end).emitted, end.index, source.len() as int);
}

} // verus!
