use minilisp::lexer::{tokenize, Token};

#[test]
fn test_add() {
    let tokens = tokenize("(+ 1 2)").unwrap_or_default();
    assert_eq!(
        tokens,
        vec![
            Token::LParen,
            Token::Symbol("+".to_string()),
            Token::Integer(1),
            Token::Integer(2),
            Token::RParen
        ]
    )
}

#[test]
fn test_empty_input() {
    assert_eq!(tokenize("").unwrap(), vec![]);
}

#[test]
fn test_string_literal() {
    let tokens = tokenize("(define str \"hogehoge\")").unwrap();
    assert_eq!(
        tokens,
        vec![
            Token::LParen,
            Token::Symbol("define".to_string()),
            Token::Symbol("str".to_string()),
            Token::String("hogehoge".to_string()),
            Token::RParen
        ]
    );
}

#[test]
fn test_unterminated_string() {
    let err = tokenize("\"abc").unwrap_err();
    assert_eq!(err.err, "Unterminated string: abc".to_string());
    assert_eq!(
        err.message(),
        "Tokenization error: Unterminated string: abc".to_string()
    );
}

#[test]
fn test_negative_and_signed_integers() {
    let tokens = tokenize("(-42 +7 -)").unwrap();
    assert_eq!(
        tokens,
        vec![
            Token::LParen,
            Token::Integer(-42),
            Token::Integer(7),
            Token::Symbol("-".to_string()),
            Token::RParen
        ]
    );
}

#[test]
fn test_integer_bounds() {
    let tokens = tokenize("(9223372036854775807 -9223372036854775808 9223372036854775808)")
        .unwrap();
    assert_eq!(
        tokens,
        vec![
            Token::LParen,
            Token::Integer(i64::MAX),
            Token::Integer(i64::MIN),
            Token::Symbol("9223372036854775808".to_string()),
            Token::RParen
        ]
    );
}

#[test]
fn test_word_that_is_not_an_integer_is_a_symbol() {
    // the value model has no float literals: such a word reads as a symbol
    let tokens = tokenize("1.5").unwrap();
    assert_eq!(tokens, vec![Token::Symbol("1.5".to_string())]);
}

#[test]
fn test_word_ends_at_parenthesis() {
    let tokens = tokenize("(a(b)c)").unwrap();
    assert_eq!(
        tokens,
        vec![
            Token::LParen,
            Token::Symbol("a".to_string()),
            Token::LParen,
            Token::Symbol("b".to_string()),
            Token::RParen,
            Token::Symbol("c".to_string()),
            Token::RParen
        ]
    );
}
