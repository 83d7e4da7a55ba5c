use hule::tokenizer::{Tokenized, Tokenizer};

fn stream(source: &str) -> Tokenized {
    Tokenizer::new().tokenize(source)
}

fn text(token: Option<&hule::tokens::Token>) -> Option<String> {
    token.map(|t| t.value.clone())
}

#[test]
fn empty_stream() {
    let mut tokens = Tokenized::new();
    assert_eq!(tokens.get_token_count(), 0);
    assert_eq!(tokens.get_current_token_index(), usize::MAX);
    assert!(!tokens.is_currently_in_range());
    assert!(!tokens.is_in_range(0));
    assert!(tokens.get_token(0).is_none());
    assert!(tokens.get_current_token().is_none());
    assert!(tokens.next().is_none());
    assert_eq!(tokens.get_current_token_index(), 0);
    assert!(tokens.next().is_none());
    assert_eq!(tokens.get_current_token_index(), 0);
    assert!(tokens.prev().is_none());
    assert_eq!(tokens.get_current_token_index(), usize::MAX);
    assert!(tokens.prev().is_none());
    assert_eq!(tokens.get_current_token_index(), usize::MAX);
}

#[test]
fn cursor_starts_before_the_first_token() {
    let tokens = stream("a b c");
    assert_eq!(tokens.get_token_count(), 3);
    assert_eq!(tokens.get_current_token_index(), usize::MAX);
    assert!(!tokens.is_currently_in_range());
    assert!(tokens.get_current_token().is_none());
    assert_eq!(text(tokens.peek_next(1)), Some("a".to_string()));
    assert_eq!(text(tokens.peek_next(3)), Some("c".to_string()));
    assert_eq!(text(tokens.peek_next(4)), None);
    assert_eq!(text(tokens.peek_next(0)), None);
    assert_eq!(text(tokens.peek_prev(0)), None);
    assert_eq!(text(tokens.peek_prev(1)), None);
}

#[test]
fn next_walks_to_the_end_and_stops_there() {
    let mut tokens = stream("a b c");
    assert_eq!(text(tokens.next()), Some("a".to_string()));
    assert_eq!(tokens.get_current_token_index(), 0);
    assert!(tokens.is_currently_in_range());
    assert_eq!(tokens.get_current_token().map(|t| t.value), Some("a".to_string()));
    assert_eq!(text(tokens.next()), Some("b".to_string()));
    assert_eq!(text(tokens.next()), Some("c".to_string()));
    assert_eq!(tokens.get_current_token_index(), 2);
    assert_eq!(text(tokens.next()), None);
    assert_eq!(tokens.get_current_token_index(), 3);
    assert!(!tokens.is_currently_in_range());
    assert_eq!(text(tokens.next()), None);
    assert_eq!(tokens.get_current_token_index(), 3);
}

#[test]
fn prev_steps_back_to_before_the_first_token() {
    let mut tokens = stream("a b c");
    assert_eq!(text(tokens.prev()), None);
    assert_eq!(tokens.get_current_token_index(), usize::MAX);
    tokens.set_current_token_index(2);
    assert_eq!(text(tokens.prev()), Some("b".to_string()));
    assert_eq!(tokens.get_current_token_index(), 1);
    assert_eq!(text(tokens.prev()), Some("a".to_string()));
    assert_eq!(text(tokens.prev()), None);
    assert_eq!(tokens.get_current_token_index(), usize::MAX);
    tokens.set_current_token_index(3);
    assert_eq!(text(tokens.prev()), Some("c".to_string()));
    assert_eq!(tokens.get_current_token_index(), 2);
}

#[test]
fn peeking_does_not_move_the_cursor() {
    let mut tokens = stream("a b c");
    tokens.set_current_token_index(1);
    assert_eq!(text(tokens.peek_next(0)), Some("b".to_string()));
    assert_eq!(text(tokens.peek_next(1)), Some("c".to_string()));
    assert_eq!(text(tokens.peek_next(2)), None);
    assert_eq!(text(tokens.peek_next(usize::MAX)), None);
    assert_eq!(text(tokens.peek_prev(0)), Some("b".to_string()));
    assert_eq!(text(tokens.peek_prev(1)), Some("a".to_string()));
    assert_eq!(text(tokens.peek_prev(2)), None);
    assert_eq!(text(tokens.peek_prev(usize::MAX)), None);
    assert_eq!(tokens.get_current_token_index(), 1);
}

#[test]
fn setting_the_index_stays_within_the_stream() {
    let mut tokens = stream("a b c");
    tokens.set_current_token_index(0);
    assert_eq!(tokens.get_current_token_index(), 0);
    tokens.set_current_token_index(3);
    assert_eq!(tokens.get_current_token_index(), 3);
    tokens.set_current_token_index(4);
    assert_eq!(tokens.get_current_token_index(), 3);
    tokens.set_current_token_index(usize::MAX - 1);
    assert_eq!(tokens.get_current_token_index(), 3);
    tokens.set_current_token_index(usize::MAX);
    assert_eq!(tokens.get_current_token_index(), usize::MAX);
    assert!(!tokens.is_currently_in_range());
}

#[test]
fn saved_index_restores_the_position() {
    let mut tokens = stream("a b c");
    for target in [usize::MAX, 0, 1, 2, 3] {
        tokens.set_current_token_index(target);
        let saved = tokens.get_current_token_index();
        tokens.next();
        tokens.next();
        tokens.set_current_token_index(saved);
        assert_eq!(tokens.get_current_token_index(), target);
    }
}

#[test]
fn tokens_by_index() {
    let tokens = stream("a b c");
    assert!(tokens.is_in_range(0));
    assert!(tokens.is_in_range(2));
    assert!(!tokens.is_in_range(3));
    assert_eq!(tokens.get_token(0).map(|t| t.value), Some("a".to_string()));
    assert_eq!(tokens.get_token(2).map(|t| t.value), Some("c".to_string()));
    assert!(tokens.get_token(3).is_none());
    assert!(tokens.get_token(usize::MAX).is_none());
}

#[test]
fn remember_and_forget() {
    let mut tokens = stream("a b c d");
    tokens.next();
    assert_eq!(tokens.remember(), 0);
    tokens.next();
    tokens.next();
    assert_eq!(tokens.remember(), 1);
    tokens.next();
    assert_eq!(tokens.get_current_token_index(), 3);
    tokens.forget();
    assert_eq!(tokens.get_current_token_index(), 2);
    tokens.forget();
    assert_eq!(tokens.get_current_token_index(), 0);
    tokens.next();
    tokens.forget();
    assert_eq!(tokens.get_current_token_index(), 0);
}

#[test]
fn forget_until_undoes_nested_checkpoints() {
    let mut tokens = stream("a b c d");
    let outer = tokens.remember();
    tokens.next();
    let middle = tokens.remember();
    tokens.next();
    let inner = tokens.remember();
    tokens.next();
    assert_eq!((outer, middle, inner), (0, 1, 2));
    tokens.forget_until(middle);
    assert_eq!(tokens.get_current_token_index(), 0);
    assert_eq!(tokens.remember(), 1);
    tokens.next();
    tokens.forget_until(5);
    assert_eq!(tokens.get_current_token_index(), 1);
    tokens.forget_until(outer);
    assert_eq!(tokens.get_current_token_index(), usize::MAX);
    assert_eq!(tokens.remember(), 0);
}

#[test]
fn reset_index_moves_to_the_first_token() {
    let mut tokens = stream("a b");
    tokens.next();
    tokens.next();
    tokens.reset_index();
    assert_eq!(tokens.get_current_token_index(), 0);
    assert_eq!(tokens.get_current_token().map(|t| t.value), Some("a".to_string()));
    let mut empty = Tokenized::new();
    empty.reset_index();
    assert_eq!(empty.get_current_token_index(), 0);
    assert!(!empty.is_currently_in_range());
}
