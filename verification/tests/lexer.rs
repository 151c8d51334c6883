use r6rs::ast::Number;
use r6rs::lexer::{tokenize, Token};

fn just(src: &str) -> Vec<Token> {
    let mut tokens = tokenize(src).unwrap_or_else(|e| panic!("{}", e.to_string()));
    assert!(matches!(tokens.last().unwrap().token, Token::Eof));
    tokens.pop();
    tokens.into_iter().map(|st| st.token).collect()
}

#[test]
fn lex_empty_and_eof() {
    let t = tokenize("").unwrap();
    assert_eq!(t.len(), 1);
    assert!(matches!(t[0].token, Token::Eof));
}

#[test]
fn lex_whitespace_only() {
    assert_eq!(just("   \n\t  \n"), vec![]);
}

#[test]
fn lex_line_comment() {
    assert_eq!(just("; a comment\n  ;another\n"), vec![]);
}

#[test]
fn lex_block_comment_nest() {
    assert_eq!(just("#| outer |#"), vec![]);
    assert_eq!(just("#| a #| b |# c |#"), vec![]);
}

#[test]
fn lex_block_comment_unterminated_errors() {
    assert!(tokenize("#| open").is_err());
}

#[test]
fn lex_parens_and_dot() {
    assert_eq!(just("( . )"), vec![
        Token::LeftParen,
        Token::Dot,
        Token::RightParen,
    ]);
}

#[test]
fn lex_quote_abbrevs() {
    assert_eq!(just("'`,"), vec![
        Token::Quote,
        Token::QuasiQuote,
        Token::Unquote,
    ]);
    assert_eq!(just(",@"), vec![Token::UnquoteSplicing]);
}

#[test]
fn lex_booleans() {
    assert_eq!(just("#t #f #true #false"), vec![
        Token::Boolean(true),
        Token::Boolean(false),
        Token::Boolean(true),
        Token::Boolean(false),
    ]);
}

#[test]
fn lex_characters() {
    assert_eq!(just("#\\a #\\space #\\newline #\\("), vec![
        Token::Character('a'),
        Token::Character(' '),
        Token::Character('\n'),
        Token::Character('('),
    ]);
}

#[test]
fn lex_strings() {
    assert_eq!(just("\"abc\" \"a\\nb\""), vec![
        Token::String("abc".to_string()),
        Token::String("a\nb".to_string()),
    ]);
    assert_eq!(just("\"\\x41;\""), vec![Token::String("A".to_string())]);
    assert_eq!(just("\"a\\\"b\""), vec![Token::String("a\"b".to_string())]);
}

#[test]
fn lex_string_unterminated_errors() {
    assert!(tokenize("\"abc").is_err());
    assert!(tokenize("\"a\\xZ;\"").is_err());
}

#[test]
fn lex_fixnums() {
    assert_eq!(just("0 42 -7 +100"), vec![
        Token::Number(Number::Fixnum(0)),
        Token::Number(Number::Fixnum(42)),
        Token::Number(Number::Fixnum(-7)),
        Token::Number(Number::Fixnum(100)),
    ]);
}

#[test]
fn lex_flonums() {
    let values: Vec<f64> = just("3.14 -0.5 1e10 2.5e-3")
        .into_iter()
        .map(|t| match t {
            Token::Number(Number::Flonum(text)) => text.parse::<f64>().unwrap(),
            other => panic!("expected a flonum, found {:?}", other),
        })
        .collect();
    assert_eq!(values, vec![3.14, -0.5, 1e10, 2.5e-3]);
}

#[test]
fn lex_symbols() {
    assert_eq!(just("+ - * < <= = => set! list->vector"), vec![
        Token::Symbol("+".to_string()),
        Token::Symbol("-".to_string()),
        Token::Symbol("*".to_string()),
        Token::Symbol("<".to_string()),
        Token::Symbol("<=".to_string()),
        Token::Symbol("=".to_string()),
        Token::Symbol("=>".to_string()),
        Token::Symbol("set!".to_string()),
        Token::Symbol("list->vector".to_string()),
    ]);
}

#[test]
fn lex_vector_and_bytevector_prefix() {
    assert_eq!(just("#( #vu8("), vec![
        Token::VectorPrefix,
        Token::ByteVectorPrefix,
    ]);
    assert_eq!(just("#VU8("), vec![Token::ByteVectorPrefix]);
}

#[test]
fn lex_datum_comment() {
    assert_eq!(just("#;x"), vec![Token::DatumComment, Token::Symbol("x".to_string())]);
}

#[test]
fn lex_mixed_list() {
    assert_eq!(
        just("(define x (+ 1 2))"),
        vec![
            Token::LeftParen,
            Token::Symbol("define".to_string()),
            Token::Symbol("x".to_string()),
            Token::LeftParen,
            Token::Symbol("+".to_string()),
            Token::Number(Number::Fixnum(1)),
            Token::Number(Number::Fixnum(2)),
            Token::RightParen,
            Token::RightParen,
        ]
    );
}
