use hule::tokenizer::{Tokenized, Tokenizer, TokenizerState};

fn prepare_test(input: &str) -> Tokenized {
    let mut tokenizer = Tokenizer::new();
    tokenizer.tokenize(input)
}

fn lexemes(input: &str) -> Vec<String> {
    let tokenized = prepare_test(input);
    let mut result = Vec::new();
    let mut index = 0;
    while let Some(token) = tokenized.get_token(index) {
        result.push(token.value.clone());
        index += 1;
    }
    result
}

#[test]
fn test_word_space_word() {
    let tokenized = prepare_test("test test");

    assert_eq!(tokenized.get_token_count(), 2);
}

#[test]
fn test_word_stopchar_word() {
    let tokenized = prepare_test("test-test");

    assert_eq!(tokenized.get_token_count(), 3);
}

#[test]
fn test_word_stopchar_ignorechar_word() {
    let tokenized = prepare_test("test{ test");

    assert_eq!(tokenized.get_token_count(), 3);
}

#[test]
fn test_word_pair_word() {
    let tokenized = prepare_test("test>=test");

    assert_eq!(tokenized.get_token_count(), 3);
}

#[test]
fn lexemes_of_words_and_stop_chars() {
    assert_eq!(lexemes("test test"), vec!["test", "test"]);
    assert_eq!(lexemes("test-test"), vec!["test", "-", "test"]);
    assert_eq!(lexemes("test{ test"), vec!["test", "{", "test"]);
    assert_eq!(lexemes("test>=test"), vec!["test", ">=", "test"]);
}

#[test]
fn escaped_quote_stays_inside_the_string() {
    assert_eq!(lexemes("\"a\\\"b\""), vec!["\"a\\\"b\""]);
    assert_eq!(prepare_test("\"a\\\"b\"").get_token_count(), 1);
}

#[test]
fn string_is_a_token_of_its_own() {
    assert_eq!(lexemes("x=\"a b\";"), vec!["x", "=", "\"a b\"", ";"]);
    assert_eq!(lexemes("\"abc\"def"), vec!["\"abc\"", "def"]);
    assert_eq!(lexemes("ab\"cd\""), vec!["ab", "\"cd\""]);
    assert_eq!(lexemes("'a' \"b'c\""), vec!["'a'", "\"b'c\""]);
    assert_eq!(lexemes("\"\""), vec!["\"\""]);
}

#[test]
fn escape_character_escapes_one_character() {
    assert_eq!(lexemes("\"a\\\\\" b"), vec!["\"a\\\\\" b"]);
    assert_eq!(lexemes("\"a\\nb\" c"), vec!["\"a\\nb\"", "c"]);
}

#[test]
fn unterminated_string_is_flushed_at_the_end() {
    assert_eq!(lexemes("x \"abc"), vec!["x", "\"abc"]);
    assert_eq!(lexemes("\""), vec!["\""]);
}

#[test]
fn comments_make_no_token_of_their_body() {
    assert_eq!(lexemes("a // b c\nd"), vec!["a", "d"]);
    assert_eq!(lexemes("a // b c"), vec!["a"]);
    assert_eq!(lexemes("a//b\rc"), vec!["a", "c"]);
    assert_eq!(lexemes("a /* b c"), vec!["a"]);
    assert_eq!(lexemes("a /* \"b\" */"), vec!["a"]);
    assert_eq!(lexemes("a/* c */b"), vec!["a", "b"]);
    assert_eq!(prepare_test("a/* c */b").get_token_count(), 2);
}

#[test]
fn block_comment_lasts_from_its_opener_to_its_terminator() {
    assert_eq!(lexemes("a /* b */ c"), vec!["a", "c"]);
    assert_eq!(lexemes("a/*b*/c"), vec!["a", "c"]);
    assert_eq!(lexemes("a/**/c"), vec!["a", "c"]);
    assert_eq!(lexemes("/*/ x"), Vec::<String>::new());
    assert_eq!(lexemes("/*/ x */ y"), vec!["y"]);
    assert_eq!(lexemes("/* a *// b\nc"), vec!["/", "b", "c"]);
    assert_eq!(lexemes("/* a */// b\nc"), vec!["c"]);
    assert_eq!(lexemes("a /* b * / c */ d"), vec!["a", "d"]);
    assert_eq!(lexemes("a /* b"), vec!["a"]);
    assert_eq!(lexemes("a /*"), vec!["a"]);
    assert_eq!(lexemes("a */ b"), vec!["a", "*", "/", "b"]);
}

#[test]
fn reading_a_string_one_character_at_a_time() {
    let mut tokenizer = Tokenizer::new();
    let mut tokenized = Tokenized::new();
    tokenizer.do_read_char('"', Some('a'), &mut tokenized);
    tokenizer.do_read_char('a', Some('\\'), &mut tokenized);
    tokenizer.do_read_char('\\', Some('"'), &mut tokenized);
    tokenizer.do_read_char('"', Some(' '), &mut tokenized);
    tokenizer.do_read_char(' ', None, &mut tokenized);
    assert_eq!(tokenized.get_token_count(), 0);
    let mut tokenizer = Tokenizer::new();
    let mut tokenized = Tokenized::new();
    tokenizer.do_read_char('"', Some('a'), &mut tokenized);
    tokenizer.do_read_char('a', Some('"'), &mut tokenized);
    assert_eq!(tokenized.get_token_count(), 0);
    tokenizer.do_read_char('"', None, &mut tokenized);
    assert_eq!(tokenized.get_token_count(), 1);
    assert_eq!(tokenized.get_token(0).unwrap().value, "\"a\"");
}

#[test]
fn reading_a_comment_one_character_at_a_time() {
    let mut tokenizer = Tokenizer::new();
    let mut tokenized = Tokenized::new();
    let text: Vec<char> = "a/*/b*/c".chars().collect();
    for (i, c) in text.iter().enumerate() {
        tokenizer.do_read_char(*c, text.get(i + 1).copied(), &mut tokenized);
    }
    tokenizer.do_read_char(' ', None, &mut tokenized);
    assert_eq!(tokenized.get_token_count(), 2);
    assert_eq!(tokenized.get_token(0).unwrap().value, "a");
    assert_eq!(tokenized.get_token(1).unwrap().value, "c");
}

#[test]
fn pairs_are_kept_together() {
    assert_eq!(lexemes("a==b"), vec!["a", "==", "b"]);
    assert_eq!(lexemes("a<=b"), vec!["a", "<=", "b"]);
    assert_eq!(lexemes("a&&b||c"), vec!["a", "&&", "b", "||", "c"]);
    assert_eq!(lexemes("a===b"), vec!["a", "==", "=", "b"]);
    assert_eq!(lexemes("a=>b"), vec!["a", "=", ">", "b"]);
    assert_eq!(lexemes("a!=b"), vec!["a!", "=", "b"]);
    assert_eq!(lexemes("a..b"), vec!["a..b"]);
    assert_eq!(lexemes("é==é"), vec!["é", "==", "é"]);
    assert_eq!(lexemes("a="), vec!["a", "="]);
}

#[test]
fn stop_characters() {
    assert_eq!(
        lexemes("a,b*c/d|e&f[g]h(i)j{k}l+m$n-o@p;q^r:s=t<u>v"),
        vec![
            "a", ",", "b", "*", "c", "/", "d", "|", "e", "&", "f", "[", "g", "]", "h", "(", "i",
            ")", "j", "{", "k", "}", "l", "+", "m", "$", "n", "-", "o", "@", "p", ";", "q", "^",
            "r", ":", "s", "=", "t", "<", "u", ">", "v",
        ]
    );
    assert_eq!(lexemes(" a \n b \r c  "), vec!["a", "b", "c"]);
    assert_eq!(lexemes("a.b!c#d"), vec!["a.b!c#d"]);
}

#[test]
fn empty_and_blank_sources_have_no_tokens() {
    assert_eq!(prepare_test("").get_token_count(), 0);
    assert_eq!(prepare_test(" \n\r ").get_token_count(), 0);
    assert_eq!(prepare_test("// only a comment").get_token_count(), 0);
}

#[test]
fn no_token_is_empty() {
    let sources = [
        "",
        " ",
        "int x = 5;",
        "\"\" '' \"",
        "a /* b */ c // d",
        "== = ; ;; \n\n",
        "int add(int a, int b) { }",
        "\\ \" \\\" ' \\",
    ];
    for source in sources {
        for lexeme in lexemes(source) {
            assert!(!lexeme.is_empty(), "{:?}", source);
        }
    }
}

#[test]
fn tokenizer_starts_afresh_for_each_source() {
    let mut tokenizer = Tokenizer::new();
    let first = tokenizer.tokenize("a \"open\\");
    assert_eq!(first.get_token_count(), 2);
    let second = tokenizer.tokenize("\"\" b");
    assert_eq!(second.get_token_count(), 2);
    assert_eq!(second.get_token(0).map(|t| t.value), Some("\"\"".to_string()));
    assert_eq!(second.get_current_token_index(), usize::MAX);
}

#[test]
fn reading_one_character_at_a_time() {
    let mut tokenizer = Tokenizer::new();
    let mut tokenized = Tokenized::new();
    tokenizer.do_read_char('a', Some('b'), &mut tokenized);
    tokenizer.do_read_char('b', Some(';'), &mut tokenized);
    assert_eq!(tokenized.get_token_count(), 0);
    tokenizer.do_read_char(';', Some('/'), &mut tokenized);
    assert_eq!(tokenized.get_token_count(), 2);
    tokenizer.do_read_char('/', Some('/'), &mut tokenized);
    tokenizer.do_read_char('/', Some('x'), &mut tokenized);
    tokenizer.do_read_char('x', Some('\n'), &mut tokenized);
    tokenizer.do_read_char('\n', Some('"'), &mut tokenized);
    assert_eq!(tokenized.get_token_count(), 2);
    tokenizer.do_read_char('"', Some('c'), &mut tokenized);
    tokenizer.do_read_char('c', Some('"'), &mut tokenized);
    assert_eq!(tokenized.get_token_count(), 2);
    tokenizer.do_read_char('"', None, &mut tokenized);
    assert_eq!(tokenized.get_token_count(), 3);
    assert_eq!(tokenized.get_token(0).map(|t| t.value), Some("ab".to_string()));
    assert_eq!(tokenized.get_token(1).map(|t| t.value), Some(";".to_string()));
    assert_eq!(tokenized.get_token(2).map(|t| t.value), Some("\"c\"".to_string()));
    assert_eq!(tokenized.get_current_token_index(), usize::MAX);
}

#[test]
fn tokenizer_states_are_distinct() {
    assert_ne!(TokenizerState::Unknown, TokenizerState::String);
    assert_ne!(TokenizerState::StartStopComment, TokenizerState::LineComment);
    assert_ne!(TokenizerState::StopChar, TokenizerState::Unknown);
}

#[test]
fn tokens_are_pieces_of_the_source_in_order() {
    let sources = [
        "int x = 5;",
        "a==b && \"c d\" /* e */ f // g\nh",
        "x \"open",
        "é==é 'q\\'q' ;;",
        "a /*/ b */ c",
    ];
    for source in sources {
        let chars: Vec<char> = source.chars().collect();
        let mut from = 0;
        for lexeme in lexemes(source) {
            let piece: Vec<char> = lexeme.chars().collect();
            let start = (from..=chars.len() - piece.len())
                .find(|start| chars[*start..*start + piece.len()] == piece[..]);
            assert!(start.is_some(), "{:?} in {:?}", lexeme, source);
            from = start.unwrap() + piece.len();
        }
    }
}
