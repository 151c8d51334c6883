use r6rs::ast::Number;
use r6rs::lexer::{tokenize, LexError, Span, SpannedToken, Token};

fn kinds(src: &str) -> Vec<Token> {
    tokenize(src)
        .unwrap_or_else(|e| panic!("{}", e.to_string()))
        .into_iter()
        .map(|t| t.token)
        .collect()
}

fn spans(src: &str) -> Vec<(u32, u32, usize)> {
    tokenize(src)
        .unwrap_or_else(|e| panic!("{}", e.to_string()))
        .iter()
        .map(|t| (t.span.line, t.span.column, t.span.offset))
        .collect()
}

fn failure(src: &str) -> (String, u32, u32, usize) {
    let e = tokenize(src).unwrap_err();
    (e.message.clone(), e.span.line, e.span.column, e.span.offset)
}

fn symbol(s: &str) -> Token {
    Token::Symbol(s.to_string())
}

fn string(s: &str) -> Token {
    Token::String(s.to_string())
}

fn flonum(s: &str) -> Token {
    Token::Number(Number::Flonum(s.to_string()))
}

fn fixnum(n: i64) -> Token {
    Token::Number(Number::Fixnum(n))
}

#[test]
fn positions_count_lines_and_columns_from_one() {
    assert_eq!(
        spans("(a\n  bc)"),
        vec![(1, 1, 0), (1, 2, 1), (2, 3, 5), (2, 5, 7), (2, 6, 8)]
    );
    assert_eq!(spans(""), vec![(1, 1, 0)]);
    assert_eq!(spans("\n\n"), vec![(3, 1, 2)]);
}

#[test]
fn positions_behind_strings_and_comments() {
    assert_eq!(spans("\"ab\" x"), vec![(1, 1, 0), (1, 6, 5), (1, 7, 6)]);
    assert_eq!(spans("\"a\nb\" x"), vec![(1, 1, 0), (2, 4, 6), (2, 5, 7)]);
    assert_eq!(spans("; note"), vec![(1, 7, 6)]);
    assert_eq!(spans("#|\n|# x"), vec![(2, 4, 6), (2, 5, 7)]);
    assert_eq!(spans("#\\newline x"), vec![(1, 1, 0), (1, 11, 10), (1, 12, 11)]);
}

#[test]
fn one_end_of_input_at_the_end() {
    for src in ["", "a", "(a b) ; c", "#| x |#", "'`,,@#;#("] {
        let toks = tokenize(src).unwrap();
        let ends = toks.iter().filter(|t| t.token == Token::Eof).count();
        assert_eq!(ends, 1);
        assert_eq!(toks[toks.len() - 1].token, Token::Eof);
        assert_eq!(toks[toks.len() - 1].span.offset, src.len());
    }
}

#[test]
fn whitespace_and_comments_make_no_tokens() {
    let plain = kinds("(f x)");
    assert_eq!(kinds(" \t\r\n( f\n x ) "), plain);
    assert_eq!(kinds("(f ; the function\nx)"), plain);
    assert_eq!(kinds("(f #| a #| nested |# b |# x)"), plain);
    assert_eq!(kinds("#|#||#|#(f x)"), plain);
}

#[test]
fn unterminated_block_comments() {
    assert_eq!(
        failure("a\n #| b #| c |#"),
        ("unterminated block comment".to_string(), 2, 2, 3)
    );
}

#[test]
fn integers_are_read_back() {
    for n in [0, 7, -7, 10, 4096, i64::MAX, i64::MIN] {
        assert_eq!(kinds(&n.to_string()), vec![fixnum(n), Token::Eof]);
    }
    assert_eq!(kinds("+5 -0 007"), vec![fixnum(5), fixnum(0), fixnum(7), Token::Eof]);
}

#[test]
fn integers_out_of_range_are_inexact() {
    assert_eq!(
        kinds("9223372036854775808 -9223372036854775809"),
        vec![flonum("9223372036854775808"), flonum("-9223372036854775809"), Token::Eof]
    );
}

#[test]
fn decimal_literals() {
    assert_eq!(
        kinds(".5 5. -1.5e+3 1E2 +.25"),
        vec![flonum(".5"), flonum("5."), flonum("-1.5e+3"), flonum("1E2"), flonum("+.25"), Token::Eof]
    );
    assert_eq!(kinds("1.5.2"), vec![flonum("1.5"), flonum(".2"), Token::Eof]);
}

#[test]
fn near_numbers_are_symbols() {
    assert_eq!(
        kinds("1e 1e+ 12# + - ... -x +inf.0 .a"),
        vec![
            symbol("1e"),
            symbol("1e+"),
            symbol("12#"),
            symbol("+"),
            symbol("-"),
            symbol("..."),
            symbol("-x"),
            symbol("+inf.0"),
            symbol(".a"),
            Token::Eof,
        ]
    );
}

#[test]
fn a_number_may_touch_what_follows() {
    assert_eq!(kinds("12ab"), vec![fixnum(12), symbol("ab"), Token::Eof]);
    assert_eq!(kinds("(1)"), vec![Token::LeftParen, fixnum(1), Token::RightParen, Token::Eof]);
}

#[test]
fn dot_stands_alone() {
    assert_eq!(
        kinds("(a . b)"),
        vec![Token::LeftParen, symbol("a"), Token::Dot, symbol("b"), Token::RightParen, Token::Eof]
    );
    assert_eq!(kinds("."), vec![Token::Dot, Token::Eof]);
    assert_eq!(kinds(".)"), vec![Token::Dot, Token::RightParen, Token::Eof]);
    assert_eq!(kinds("a.b"), vec![symbol("a.b"), Token::Eof]);
}

#[test]
fn booleans_need_a_terminator() {
    assert_eq!(
        kinds("#t) #true #truex #fx #"),
        vec![
            Token::Boolean(true),
            Token::RightParen,
            Token::Boolean(true),
            symbol("#truex"),
            symbol("#fx"),
            symbol("#"),
            Token::Eof,
        ]
    );
}

#[test]
fn bytevector_prefix_in_any_case() {
    for src in ["#vu8(", "#VU8(", "#vU8(", "#Vu8("] {
        assert_eq!(kinds(src), vec![Token::ByteVectorPrefix, Token::Eof]);
    }
    assert_eq!(kinds("#vu8 ("), vec![symbol("#vu8"), Token::LeftParen, Token::Eof]);
}

#[test]
fn named_characters() {
    let names = [
        ("nul", '\u{0}'),
        ("alarm", '\u{7}'),
        ("backspace", '\u{8}'),
        ("tab", '\t'),
        ("linefeed", '\n'),
        ("newline", '\n'),
        ("lf", '\n'),
        ("vtab", '\u{b}'),
        ("page", '\u{c}'),
        ("return", '\r'),
        ("cr", '\r'),
        ("esc", '\u{1b}'),
        ("space", ' '),
        ("delete", '\u{7f}'),
    ];
    for (name, c) in names {
        assert_eq!(kinds(&format!("#\\{}", name)), vec![Token::Character(c), Token::Eof]);
    }
}

#[test]
fn other_characters_are_one_byte() {
    for c in ['a', 'Z', '0', ' ', '(', ')', '#', '\\', '"', ';'] {
        assert_eq!(kinds(&format!("#\\{}", c)), vec![Token::Character(c), Token::Eof]);
    }
    assert_eq!(kinds("#\\spaced"), vec![Token::Character('s'), symbol("paced"), Token::Eof]);
    assert_eq!(
        failure("x #\\"),
        ("unexpected end of input in character literal".to_string(), 1, 5, 4)
    );
}

#[test]
fn string_escapes() {
    assert_eq!(
        kinds("\"\\\"\\\\\\n\\t\\r\\a\\b\\f\\v\""),
        vec![string("\"\\\n\t\r\u{7}\u{8}\u{c}\u{b}"), Token::Eof]
    );
    assert_eq!(kinds("\"\\x3bb;\\x1F600;\""), vec![string("\u{3bb}\u{1f600}"), Token::Eof]);
    assert_eq!(kinds("\"\""), vec![string(""), Token::Eof]);
}

#[test]
fn bytes_in_strings_stand_for_characters() {
    assert_eq!(kinds("\"\u{e9}\""), vec![string("\u{c3}\u{a9}"), Token::Eof]);
}

#[test]
fn string_errors() {
    assert_eq!(failure(" \"abc"), ("unterminated string".to_string(), 1, 3, 2));
    assert_eq!(failure("\"ab\\"), ("unterminated string escape".to_string(), 1, 2, 1));
    assert_eq!(failure("\"a\\xZ;\""), ("invalid hex escape in string".to_string(), 1, 5, 4));
    assert_eq!(failure("\"\\x;\""), ("malformed hex escape in string".to_string(), 1, 4, 3));
    assert_eq!(failure("\"\\x41"), ("malformed hex escape in string".to_string(), 1, 6, 5));
    assert_eq!(
        failure("\"\\xD800;\""),
        ("invalid scalar value in string escape".to_string(), 1, 9, 8)
    );
    assert_eq!(failure("\"\\q\""), ("unknown string escape \\q".to_string(), 1, 4, 3));
}

#[test]
fn hex_escapes_beyond_all_characters() {
    assert_eq!(
        failure("\"\\x1000000041;\""),
        ("invalid scalar value in string escape".to_string(), 1, 15, 14)
    );
    assert_eq!(
        failure("\"\\x110000;\""),
        ("invalid scalar value in string escape".to_string(), 1, 11, 10)
    );
    assert_eq!(kinds("\"\\x0000000000041;\""), vec![string("A"), Token::Eof]);
}

#[test]
fn symbols_beyond_ascii() {
    assert_eq!(kinds("\u{3bb} \u{e9}t\u{e9}"), vec![symbol("\u{3bb}"), symbol("\u{e9}t\u{e9}"), Token::Eof]);
}

#[test]
fn symbols_from_broken_text_are_repaired() {
    assert_eq!(
        kinds("#\\\u{e9}x"),
        vec![Token::Character('\u{c3}'), symbol("\u{fffd}x"), Token::Eof]
    );
}

#[test]
fn inline_hex_escapes_in_symbols() {
    assert_eq!(kinds("a\\x41;b c"), vec![symbol("a\\x41;b"), symbol("c"), Token::Eof]);
    assert_eq!(kinds("a\\x 1 ;b"), vec![symbol("a\\x 1 ;b"), Token::Eof]);
    assert_eq!(failure("ab\\x41"), ("unterminated inline hex escape".to_string(), 1, 3, 2));
}

#[test]
fn tokens_separate_without_whitespace() {
    assert_eq!(
        kinds("'(a\"b\"c)"),
        vec![
            Token::Quote,
            Token::LeftParen,
            symbol("a"),
            string("b"),
            symbol("c"),
            Token::RightParen,
            Token::Eof,
        ]
    );
}

#[test]
fn lex_error_text() {
    let e = tokenize("\n  \"").unwrap_err();
    assert_eq!(e.to_string(), "lex error at line 2, column 4: unterminated string");
    let far = LexError {
        message: "m".to_string(),
        span: Span { line: 1200, column: u32::MAX, offset: 0 },
    };
    assert_eq!(far.to_string(), "lex error at line 1200, column 4294967295: m");
    assert_eq!(far.clone(), far);
}

#[test]
fn default_span_and_copies() {
    assert_eq!(Span::default(), Span { line: 0, column: 0, offset: 0 });
    for t in tokenize("(a . \"b\" #\\c 1 2.5 #t '`,,@ #( #vu8( #;)").unwrap() {
        let copy: SpannedToken = t.clone();
        assert_eq!(copy, t);
    }
}
