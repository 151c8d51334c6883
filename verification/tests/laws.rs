use r6rs::ast::{Body, Definition, Expr, TopLevelForm};
use r6rs::lexer::{tokenize, Token};
use r6rs::parser::{parse_expr, parse_program};

fn kinds(src: &str) -> Vec<Token> {
    tokenize(src).unwrap().into_iter().map(|t| t.token).collect()
}

#[test]
fn layout_is_irrelevant() {
    let dense = "(define(f x)(if(null? x)'()(cons 1(f(cdr x)))))";
    let loose = "(define (f x) ; walks a list
        (if (null? x) #| the end |# ' ()
            (cons 1 (f (cdr x)))))";
    assert_eq!(kinds(dense), kinds(loose));
    assert_eq!(parse_program(dense).unwrap(), parse_program(loose).unwrap());
    let a = parse_expr("(let (x) y)").unwrap_err();
    let b = parse_expr("(let\n\n(x)\ny)").unwrap_err();
    assert_eq!(a.message, b.message);
}

#[test]
fn programs_in_sequence() {
    let sources = ["(define x 1)", "(f x) ; comment", "", "'a 'b #;c", "#;(begin (g)) (h)"];
    for a in sources {
        for b in sources {
            let mut forms = parse_program(a).unwrap().forms;
            forms.extend(parse_program(b).unwrap().forms);
            let both = format!("{}\n{}", a, b);
            assert_eq!(parse_program(&both).unwrap().forms, forms);
        }
        let bad = format!("{}\n(f", a);
        let alone = parse_program("(f").unwrap_err();
        assert_eq!(parse_program(&bad).unwrap_err().message, alone.message);
    }
}

#[test]
fn a_program_of_one_expression() {
    for src in ["x", "(f 1 2)", "'(a . b)", "#;(ignored) (let () 1)", "(if a b)"] {
        let e = parse_expr(src).unwrap();
        assert_eq!(parse_program(src).unwrap().forms, vec![TopLevelForm::Expr(e)]);
    }
    assert!(matches!(parse_expr("(begin a)").unwrap(), Expr::Begin(_)));
    assert!(matches!(parse_program("(begin a)").unwrap().forms[0], TopLevelForm::Begin(_)));
    assert!(matches!(parse_expr("(define a 1)").unwrap(), Expr::Application { .. }));
    assert!(matches!(
        parse_program("(define a 1)").unwrap().forms[0],
        TopLevelForm::Definition(_)
    ));
}

#[test]
fn written_programs_are_read_back() {
    let spaced = "( define ( f a . b ) ( define c ( quote ( 1 . #( \"s\\x3bb;\" #\\x ) ) ) ) \
                  ( if a ( set! b -5 ) ) ) ";
    let forms = parse_program(spaced).unwrap().forms;
    assert_eq!(forms.len(), 1);
    match &forms[0] {
        TopLevelForm::Definition(Definition::Function { name, formals, body }) => {
            assert_eq!(name.to_string(), "f");
            assert_eq!(formals.fixed.len(), 1);
            assert_eq!(body.definitions.len(), 1);
            assert_eq!(body.expressions.len(), 1);
        }
        other => panic!("expected a function, found {:?}", other),
    }
    let compact = "(define(f a . b)(define c '(1 . #(\"s\\x3bb;\"#\\x)))(if a(set! b -5)))";
    assert_eq!(parse_program(compact).unwrap().forms, forms);
}

#[test]
fn every_body_holds_an_expression() {
    fn check(b: &Body) {
        assert!(!b.expressions.is_empty());
    }
    match parse_expr("(lambda () (define (g) (let () 1)) (let* () (g)))").unwrap() {
        Expr::Lambda { body, .. } => {
            check(&body);
            match &body.definitions[0] {
                Definition::Function { body, .. } => check(body),
                other => panic!("expected a function, found {:?}", other),
            }
            match &body.expressions[0] {
                Expr::LetStar { body, .. } => check(body),
                other => panic!("expected let*, found {:?}", other),
            }
        }
        other => panic!("expected lambda, found {:?}", other),
    }
}

#[test]
fn errors_lie_inside() {
    for src in ["(", "\"", "(f\n(g", "#|", "(lambda x)", "a\\x", "'#vu8(1 a)", ")\n\n"] {
        let e = parse_program(src).unwrap_err();
        assert!(e.span.offset <= src.len());
        let before = &src[..e.span.offset];
        let line = before.matches('\n').count() as u32 + 1;
        let column = match before.rfind('\n') {
            Some(n) => (e.span.offset - n) as u32,
            None => e.span.offset as u32 + 1,
        };
        assert_eq!((e.span.line, e.span.column), (line, column), "{}", src);
    }
}

#[test]
fn accepted_sources_are_balanced() {
    for src in ["(f #(a) '(b . c))", "#vu8(1 2) x", "#;(a (b)) c", "(let () (define (g) 1) (g))"] {
        assert!(parse_program(src).is_ok());
        let mut level = 0;
        for token in kinds(src) {
            match token {
                Token::LeftParen | Token::VectorPrefix | Token::ByteVectorPrefix => level += 1,
                Token::RightParen => level -= 1,
                _ => {}
            }
            assert!(level >= 0);
        }
        assert_eq!(level, 0);
    }
    for src in ["(f", "f)", ")(", "#(a", "(f #vu8(1)", "'(a))", "#;(a"] {
        assert!(parse_program(src).is_err());
        assert!(parse_expr(src).is_err());
    }
}

#[test]
fn datum_comments_do_not_matter() {
    let bare = ["(", "f", "(", "a", ".", "b", ")", ")"];
    let source = |parts: &[&str]| format!("'{}", parts.join(" "));
    let expected = parse_expr(&source(&bare)).unwrap();
    for at in 0..=bare.len() {
        for comment in ["#;x", "#;(x . y)", "#;#;x y", "#;'#(1 2)"] {
            let mut parts = bare.to_vec();
            parts.insert(at, comment);
            assert_eq!(parse_expr(&source(&parts)).unwrap(), expected);
        }
    }
}

#[test]
fn what_follows_a_phrase_does_not_change_it() {
    let first = parse_program("(f 'a)").unwrap().forms;
    for rest in ["b", "(g)", "'c", "#;d e", "(define x 1)"] {
        let src = format!("(f 'a){}", rest);
        assert_eq!(parse_program(&src).unwrap().forms[0], first[0]);
    }
}
