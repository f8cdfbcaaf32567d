use interpro_filter::ast::add_bracket;
use interpro_filter::lex::{lex, Token};
use std::collections::VecDeque;

#[test]
fn test_simple() {
    let s = "a & b";
    let tokens = lex(s).unwrap();
    assert_eq!(
        vec![
            Token::Name('a'.to_string()),
            Token::And,
            Token::Name('b'.to_string())
        ],
        tokens
    );
}

#[test]
fn test_or_alias() {
    assert_eq!(lex("a | b").unwrap(), lex("a,b").unwrap());
}

#[test]
fn test_with_invert() {
    let s = "!a & b";
    let tokens = lex(s).unwrap();
    assert_eq!(
        vec![
            Token::Invert,
            Token::Name("a".to_string()),
            Token::And,
            Token::Name("b".to_string())
        ],
        tokens
    )
}

#[test]
fn test_with_bracket() {
    let s = "!(a & b) | c";
    let tokens = lex(s).unwrap();
    assert_eq!(
        vec![
            Token::Invert,
            Token::OpenBracket,
            Token::Name("a".to_string()),
            Token::And,
            Token::Name("b".to_string()),
            Token::CloseBracket,
            Token::Or,
            Token::Name("c".to_string()),
        ],
        tokens
    )
}

#[test]
fn test_addbracket() {
    let mut vq3: VecDeque<Token> = VecDeque::from(vec![
        Token::Name("a".to_string()),
        Token::And,
        Token::Name("b".to_string()),
    ]);

    add_bracket(&mut vq3);

    let excpected = VecDeque::from(vec![
        Token::OpenBracket,
        Token::Name("a".to_string()),
        Token::CloseBracket,
        Token::And,
        Token::Name("b".to_string()),
    ]);

    assert_eq!(vq3, excpected);
}

#[test]
fn lex_flushes_name_at_end_of_input() {
    assert_eq!(lex("abc").unwrap(), vec![Token::Name("abc".to_string())]);
}

#[test]
fn lex_whitespace_only_gives_no_tokens() {
    assert_eq!(lex(" \t \n ").unwrap(), Vec::<Token>::new());
}

#[test]
fn lex_name_with_count_suffix_is_one_token() {
    assert_eq!(
        lex("name$2").unwrap(),
        vec![Token::Name("name$2".to_string())]
    );
}
