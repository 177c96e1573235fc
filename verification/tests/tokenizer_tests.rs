use blog_tools::tokenizer::{tokens_from_words, ChineseTokenizer, Token, VecTokenStream};

#[test]
fn test_chinese_tokenizer() {
    let tokenizer = ChineseTokenizer::new();
    let mut stream = tokenizer.token_stream("Rust异步编程和智能指针的最佳实践");

    let mut tokens = Vec::new();
    while stream.advance() {
        tokens.push(stream.token().text.clone());
    }

    assert!(tokens.contains(&"Rust".to_string()));
    assert!(tokens.contains(&"异步".to_string()));
    assert!(tokens.contains(&"智能指针".to_string()));
}

#[test]
fn tokens_have_positions_and_no_offsets() {
    let tokens = tokens_from_words(vec!["a".to_string(), "bc".to_string()]);
    assert_eq!(tokens.len(), 2);
    assert_eq!(tokens[1].position, 1);
    assert_eq!(tokens[1].text, "bc");
    assert_eq!(tokens[1].offset_from, 0);
    assert_eq!(tokens[1].offset_to, 0);
    assert_eq!(tokens[1].position_length, 1);
}

#[test]
fn stream_advances_once_per_token() {
    let t = |s: &str, p: usize| Token {
        offset_from: 0,
        offset_to: 0,
        position: p,
        text: s.to_string(),
        position_length: 1,
    };
    let mut stream = VecTokenStream::new(vec![t("x", 0), t("y", 1)]);
    assert_eq!(stream.index(), 0);
    assert!(stream.advance());
    assert_eq!(stream.token().text, "x");
    assert!(stream.advance());
    assert_eq!(stream.token().text, "y");
    assert!(!stream.advance());
    assert!(!stream.advance());
    assert_eq!(stream.index(), 2);
    assert_eq!(stream.token().text, "y");
    assert_eq!(stream.tokens().len(), 2);
}

#[test]
fn token_mut_changes_current_token() {
    let t = |s: &str, p: usize| Token {
        offset_from: 0,
        offset_to: 0,
        position: p,
        text: s.to_string(),
        position_length: 1,
    };
    let mut stream = VecTokenStream::new(vec![t("x", 0), t("y", 1)]);
    assert!(stream.advance());
    stream.token_mut().text = "z".to_string();
    assert_eq!(stream.token().text, "z");
    assert!(stream.advance());
    assert_eq!(stream.token().text, "y");
    assert_eq!(stream.tokens()[0].text, "z");
}
