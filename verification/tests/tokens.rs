use ejaan::utils::Token;
use ejaan::utils::TokenWithSuggestions;

#[test]
fn token_keeps_span_and_word() {
    let token = Token::new(10, 13, "tset".to_string());
    assert_eq!(token.start(), 10);
    assert_eq!(token.end(), 13);
    assert_eq!(token.word(), "tset");
    assert_eq!(token.range(), 10..=13);
}

#[test]
fn flagged_span_keeps_order_of_suggestions() {
    let token = Token::new(0, 3, "tset".to_string());
    let span = TokenWithSuggestions::new(
        token.clone(),
        vec!["test".to_string(), "set".to_string(), "tsetse".to_string()],
    );
    assert_eq!(span.token(), &token);
    assert_eq!(span.suggestions(), ["test", "set", "tsetse"]);
}

#[test]
fn token_is_built_only_where_span_and_word_agree() {
    assert_eq!(Token::try_new(10, 13, "tset".to_string()), Some(Token::new(10, 13, "tset".to_string())));
    assert_eq!(Token::try_new(0, 0, "😀".to_string()), Some(Token::new(0, 0, "😀".to_string())));
    assert_eq!(Token::try_new(13, 10, "tset".to_string()), None);
    assert_eq!(Token::try_new(10, 13, "tse".to_string()), None);
    assert_eq!(Token::try_new(10, 13, "tsets".to_string()), None);
    assert_eq!(Token::try_new(0, 0, String::new()), None);
    assert_eq!(Token::try_new(0, usize::MAX, "a".to_string()), None);
}

#[test]
fn tokens_are_equal_when_all_parts_are() {
    let token = Token::new(10, 13, "tset".to_string());
    assert_eq!(token, token.clone());
    assert_ne!(token, Token::new(11, 14, "tset".to_string()));
    assert_ne!(token, Token::new(10, 13, "test".to_string()));
}

#[test]
fn flagged_span_can_be_copied_and_taken_apart() {
    let span = TokenWithSuggestions::new(Token::new(0, 3, "tset".to_string()), vec!["test".to_string()]);
    let copy = span.clone();
    assert_eq!(copy.token(), span.token());
    assert_eq!(copy.suggestions(), span.suggestions());
    let (token, suggestions) = span.into_parts();
    assert_eq!(token, Token::new(0, 3, "tset".to_string()));
    assert_eq!(suggestions, vec!["test".to_string()]);
    let bare = TokenWithSuggestions::new(Token::new(0, 0, "x".to_string()), Vec::new());
    assert!(bare.suggestions().is_empty());
}

#[test]
fn flagged_span_reads_as_its_token() {
    let span = TokenWithSuggestions::new(Token::new(10, 13, "tset".to_string()), Vec::new());
    assert_eq!(span.start(), 10);
    assert_eq!(span.end(), 13);
    assert_eq!(span.word(), "tset");
    assert_eq!(span.range(), 10..=13);
}
