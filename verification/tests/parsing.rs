use r6rs::ast::{
    Binding, Body, CaseClause, CondClause, Datum, Definition, Expr, Formals, Ident, MvBinding,
    Number, Program, TopLevelForm,
};
use r6rs::lexer::tokenize;
use r6rs::parser::{parse_expr, parse_program, ParseError};

fn id(s: &str) -> Ident {
    Ident(s.to_string())
}

fn var(s: &str) -> Expr {
    Expr::Var(id(s))
}

fn num(n: i64) -> Expr {
    Expr::Literal(Datum::Number(Number::Fixnum(n)))
}

fn sym(s: &str) -> Datum {
    Datum::Symbol(s.to_string())
}

fn cons(car: Datum, cdr: Datum) -> Datum {
    Datum::Pair(Box::new(car), Box::new(cdr))
}

fn body(expressions: Vec<Expr>) -> Body {
    Body { definitions: vec![], expressions }
}

fn apply(operator: Expr, operands: Vec<Expr>) -> Expr {
    Expr::Application { operator: Box::new(operator), operands }
}

fn expr(src: &str) -> Expr {
    parse_expr(src).unwrap_or_else(|e| panic!("{}: {}", src, e.to_string()))
}

fn program(src: &str) -> Vec<TopLevelForm> {
    parse_program(src).unwrap_or_else(|e| panic!("{}: {}", src, e.to_string())).forms
}

fn fails(src: &str, message: &str, offset: usize) {
    let e = parse_expr(src).unwrap_err();
    assert_eq!((e.message.as_str(), e.span.offset), (message, offset), "{}", src);
}

#[test]
fn internal_definitions() {
    let e = expr("(lambda () (define x 1) (define (f y) y) (define-syntax m f) (f x))");
    let expected = Expr::Lambda {
        formals: Formals { fixed: vec![], rest: None },
        body: Body {
            definitions: vec![
                Definition::Variable { name: id("x"), init: Some(Box::new(num(1))) },
                Definition::Function {
                    name: id("f"),
                    formals: Formals { fixed: vec![id("y")], rest: None },
                    body: body(vec![var("y")]),
                },
                Definition::Syntax { keyword: id("m"), init: Box::new(var("f")) },
            ],
            expressions: vec![apply(var("f"), vec![var("x")])],
        },
    };
    assert_eq!(e, expected);
}

#[test]
fn definitions_and_datum_comments_in_bodies() {
    let e = expr("(let () #;1 (define x 2) #;3 (define y) #;4 x #;5 y #;6)");
    match e {
        Expr::Let { name: None, bindings, body } => {
            assert!(bindings.is_empty());
            assert_eq!(body.definitions.len(), 2);
            assert_eq!(body.definitions[1], Definition::Variable { name: id("y"), init: None });
            assert_eq!(body.expressions, vec![var("x"), var("y")]);
        }
        other => panic!("expected let, found {:?}", other),
    }
}

#[test]
fn definitions_behind_expressions_are_applications() {
    match expr("(lambda () a (define x 1))") {
        Expr::Lambda { body, .. } => {
            assert!(body.definitions.is_empty());
            assert_eq!(
                body.expressions,
                vec![var("a"), apply(var("define"), vec![var("x"), num(1)])]
            );
        }
        other => panic!("expected lambda, found {:?}", other),
    }
}

#[test]
fn bodies_need_an_expression() {
    fails("(lambda x)", "body requires at least one expression", 9);
    fails("(let () (define x 1))", "body requires at least one expression", 20);
    fails("(let () #;a)", "body requires at least one expression", 11);
    fails("(lambda () (define (f)) f)", "body requires at least one expression", 22);
}

#[test]
fn quotation() {
    assert_eq!(expr("(quote a)"), expr("'a"));
    assert_eq!(expr("(quote (1 . b))"), Expr::Quote(cons(Datum::Number(Number::Fixnum(1)), sym("b"))));
    assert_eq!(expr("'()"), Expr::Quote(Datum::Null));
    assert_eq!(expr("()"), Expr::Quote(Datum::Null));
    fails("(quote a b)", "expected ) to close quote", 9);
    fails("(quote)", "unexpected )", 6);
}

#[test]
fn quotation_marks_in_data() {
    assert_eq!(expr("''a"), Expr::Quote(cons(sym("quote"), cons(sym("a"), Datum::Null))));
    assert_eq!(expr("'`a"), expr("'(quasiquote a)"));
    assert_eq!(expr("',a"), expr("'(unquote a)"));
    assert_eq!(expr("',@a"), expr("'(unquote-splicing a)"));
}

#[test]
fn quasiquotation_is_an_application() {
    let literal = Expr::Literal(cons(sym("a"), cons(sym("b"), Datum::Null)));
    assert_eq!(expr("`(a b)"), apply(var("quasiquote"), vec![literal]));
    assert_eq!(expr(",a"), apply(var("unquote"), vec![Expr::Literal(sym("a"))]));
    assert_eq!(expr(",@a"), apply(var("unquote-splicing"), vec![Expr::Literal(sym("a"))]));
}

#[test]
fn lists_vectors_and_bytevectors() {
    assert_eq!(expr("'(a b . c)"), Expr::Quote(cons(sym("a"), cons(sym("b"), sym("c")))));
    assert_eq!(expr("'(. a)"), Expr::Quote(sym("a")));
    assert_eq!(
        expr("#(a #(b) ())"),
        Expr::Literal(Datum::Vector(vec![sym("a"), Datum::Vector(vec![sym("b")]), Datum::Null]))
    );
    assert_eq!(expr("#vu8(0 255)"), Expr::Literal(Datum::ByteVector(vec![0, 255])));
    assert_eq!(expr("#vu8()"), Expr::Literal(Datum::ByteVector(vec![])));
}

#[test]
fn datum_errors() {
    fails("'(a", "expected ) to close list", 3);
    fails("'(a . b c)", "expected ) to close list", 8);
    fails("'#(a", "expected ) to close vector", 4);
    fails("'#vu8(1", "expected ) to close bytevector", 7);
    fails("'#vu8(256)", "bytevector must contain exact uint8", 9);
    fails("'#vu8(-1 2)", "bytevector must contain exact uint8", 9);
    fails("'#vu8(a)", "bytevector must contain exact uint8", 7);
    fails("'", "unexpected end of input", 1);
    fails("')", "unexpected )", 1);
    fails("' .", "unexpected .", 2);
}

#[test]
fn datum_comments_skip_one_datum() {
    assert_eq!(expr("#;(a b) c"), var("c"));
    assert_eq!(expr("#;#;a b c"), var("c"));
    assert_eq!(expr("#;(a #;b) c"), var("c"));
    assert_eq!(expr("'(a #;b c)"), expr("'(a c)"));
    assert_eq!(expr("(f #;a b)"), expr("(f b)"));
    assert_eq!(program("#;(define x 1) y"), vec![TopLevelForm::Expr(var("y"))]);
}

#[test]
fn datum_comments_at_the_end() {
    assert_eq!(expr("(+ 1 #;2)"), apply(var("+"), vec![num(1)]));
    assert_eq!(expr("x #;y"), var("x"));
    assert_eq!(program("x #;y"), vec![TopLevelForm::Expr(var("x"))]);
    assert_eq!(program("#;y"), vec![]);
    assert_eq!(program("(begin x #;y) #;z"), program("(begin x)"));
}

#[test]
fn datum_comments_stand_anywhere() {
    let pairs = [
        ("'(a #;b)", "'(a)"),
        ("'(a #;b . c)", "'(a . c)"),
        ("'(a . #;b c)", "'(a . c)"),
        ("'(a . b #;c)", "'(a . b)"),
        ("'#(a #;b)", "'#(a)"),
        ("#vu8(1 #;x 2 #;300)", "#vu8(1 2)"),
        ("(#;x if a b)", "(if a b)"),
        ("(if #;x a #;x b #;x)", "(if a b)"),
        ("(if a b c #;x)", "(if a b c)"),
        ("(#;x)", "()"),
        ("(quote #;x a #;x)", "(quote a)"),
        ("(set! #;x a #;x b #;x)", "(set! a b)"),
        ("(cond #;x (#;x else a #;x) #;x)", "(cond (else a))"),
        ("(cond (a #;x => #;x b #;x))", "(cond (a => b))"),
        ("(case k #;x (#;x (a #;x) b #;x) #;x)", "(case k ((a) b))"),
        ("(case k (#;x else b))", "(case k (else b))"),
        ("(let #;x n #;x (#;x (#;x a #;x 1 #;x) #;x) a #;x)", "(let n ((a 1)) a)"),
        ("(let-values (#;x (#;x (a #;x . #;x b #;x) #;x v #;x) #;x) a)", "(let-values (((a . b) v)) a)"),
        ("(lambda (a #;x . b #;x) #;x a)", "(lambda (a . b) a)"),
        ("(lambda () (#;x define #;x a #;x 1 #;x) a)", "(lambda () (define a 1) a)"),
        ("(and a #;x)", "(and a)"),
        ("(when a #;x)", "(when a)"),
    ];
    for (commented, bare) in pairs {
        assert_eq!(expr(commented), expr(bare), "{}", commented);
    }
    let programs = [
        ("(define x #;1)", "(define x)"),
        ("(define x #;1 2)", "(define x 2)"),
        ("(#;x define (f #;x a #;x) #;x a)", "(define (f a) a)"),
        ("(define-syntax #;x m #;x f #;x)", "(define-syntax m f)"),
        ("(#;x begin #;x (f) #;x) #;x", "(begin (f))"),
    ];
    for (commented, bare) in programs {
        assert_eq!(program(commented), program(bare), "{}", commented);
    }
}

#[test]
fn datum_comments_need_a_datum() {
    fails("(f #;)", "unexpected )", 5);
    fails("#;", "unexpected end of input", 2);
    fails("#;a", "unexpected end of input", 3);
    fails("'(a #; . b)", "unexpected .", 7);
    fails("#;(a #;) b", "unexpected )", 7);
    fails("#;#vu8(256) b", "bytevector must contain exact uint8", 10);
    fails("(f . a) #;", "unexpected .", 3);
    let e = parse_program("x #;").unwrap_err();
    assert_eq!((e.message.as_str(), e.span.offset), ("unexpected end of input", 4));
}

#[test]
fn special_forms() {
    assert_eq!(
        expr("(if a b c)"),
        Expr::If {
            test: Box::new(var("a")),
            consequent: Box::new(var("b")),
            alternate: Some(Box::new(var("c"))),
        }
    );
    assert_eq!(
        expr("(set! x (f))"),
        Expr::SetBang { var: id("x"), value: Box::new(apply(var("f"), vec![])) }
    );
    assert_eq!(expr("(and)"), Expr::And(vec![]));
    assert_eq!(expr("(or a)"), Expr::Or(vec![var("a")]));
    assert_eq!(expr("(begin)"), Expr::Begin(vec![]));
    assert_eq!(
        expr("(when a b)"),
        Expr::When { test: Box::new(var("a")), body: vec![var("b")] }
    );
    assert_eq!(expr("(unless a)"), Expr::Unless { test: Box::new(var("a")), body: vec![] });
}

#[test]
fn clauses() {
    assert_eq!(
        expr("(cond (a) (b c d) (e => f) (else g))"),
        Expr::Cond(vec![
            CondClause::Clause { test: Box::new(var("a")), body: vec![] },
            CondClause::Clause { test: Box::new(var("b")), body: vec![var("c"), var("d")] },
            CondClause::Arrow { test: Box::new(var("e")), recipient: Box::new(var("f")) },
            CondClause::Else { body: vec![var("g")] },
        ])
    );
    assert_eq!(
        expr("(case k ((a 1) b) (() c) (else))"),
        Expr::Case {
            key: Box::new(var("k")),
            clauses: vec![
                CaseClause::Matches {
                    data: vec![sym("a"), Datum::Number(Number::Fixnum(1))],
                    body: vec![var("b")],
                },
                CaseClause::Matches { data: vec![], body: vec![var("c")] },
                CaseClause::Else { body: vec![] },
            ],
        }
    );
}

#[test]
fn binding_forms() {
    let bindings = vec![Binding { name: id("x"), init: Box::new(num(1)) }];
    assert_eq!(
        expr("(let loop ((x 1)) x)"),
        Expr::Let { name: Some(id("loop")), bindings: bindings.clone(), body: body(vec![var("x")]) }
    );
    assert_eq!(
        expr("(let* ((x 1)) x)"),
        Expr::LetStar { bindings: bindings.clone(), body: body(vec![var("x")]) }
    );
    assert_eq!(
        expr("(letrec ((x 1)) x)"),
        Expr::LetRec { bindings: bindings.clone(), body: body(vec![var("x")]) }
    );
    assert_eq!(
        expr("(letrec* ((x 1)) x)"),
        Expr::LetRecStar { bindings, body: body(vec![var("x")]) }
    );
    let mv = vec![MvBinding {
        formals: Formals { fixed: vec![id("a")], rest: Some(id("b")) },
        init: Box::new(var("v")),
    }];
    assert_eq!(
        expr("(let-values (((a . b) v)) a)"),
        Expr::LetValues { bindings: mv.clone(), body: body(vec![var("a")]) }
    );
    assert_eq!(
        expr("(let*-values (((a . b) v)) a)"),
        Expr::LetStarValues { bindings: mv, body: body(vec![var("a")]) }
    );
}

#[test]
fn formals_in_all_shapes() {
    let formals = |src: &str| match expr(src) {
        Expr::Lambda { formals, .. } => formals,
        other => panic!("expected lambda, found {:?}", other),
    };
    assert_eq!(formals("(lambda () 1)"), Formals { fixed: vec![], rest: None });
    assert_eq!(formals("(lambda a 1)"), Formals { fixed: vec![], rest: Some(id("a")) });
    assert_eq!(formals("(lambda ( . a) 1)"), Formals { fixed: vec![], rest: Some(id("a")) });
    assert_eq!(
        formals("(lambda (a b . c) 1)"),
        Formals { fixed: vec![id("a"), id("b")], rest: Some(id("c")) }
    );
}

#[test]
fn any_identifier_names_a_let() {
    for name in ["loop", "inf", "-Infinity", "NaN", "+nan", "infinite", "if", "..."] {
        match expr(&format!("(let {} ((n 0)) n)", name)) {
            Expr::Let { name: Some(found), bindings, body: inner } => {
                assert_eq!(found, id(name));
                assert_eq!(bindings, vec![Binding { name: id("n"), init: Box::new(num(0)) }]);
                assert_eq!(inner, body(vec![var("n")]));
            }
            other => panic!("expected a named let, found {:?}", other),
        }
    }
    fails("(let 1 ((x 1)) x)", "expected ( to open bindings", 5);
}

#[test]
fn expression_errors() {
    fails("", "unexpected end of input", 0);
    fails(")", "unexpected )", 0);
    fails(".", "unexpected .", 0);
    fails("(f", "expected ) to close application", 2);
    fails("(f . a)", "unexpected .", 3);
    fails("(lambda (a 1) a)", "expected identifier", 11);
    fails("(lambda (a . b c) a)", "expected ) to close formals", 15);
    fails("(lambda 1 a)", "expected formals", 8);
    fails("(lambda (a) b", "expected ) to close lambda", 13);
    fails("(if a b c d)", "expected ) to close if", 10);
    fails("(if a)", "unexpected )", 5);
    fails("(set! 1 2)", "expected identifier", 6);
    fails("(set! a b c)", "expected ) to close set!", 10);
    fails("(begin a", "expected ) to close begin", 8);
    fails("(and a", "expected ) to close and/or", 6);
    fails("(or a", "expected ) to close and/or", 5);
    fails("(when a", "expected ) to close when/unless", 7);
    fails("(unless a", "expected ) to close when/unless", 9);
    fails("a b", "unexpected trailing input", 2);
}

#[test]
fn clause_errors() {
    fails("(cond a)", "expected ( to open cond clause", 6);
    fails("(cond (a b", "expected ) to close cond clause", 10);
    fails("(cond (a => b c))", "expected ) to close => clause", 14);
    fails("(cond (else a", "expected ) to close else clause", 13);
    fails("(cond (a)", "expected ) to close cond", 9);
    fails("(case k a)", "expected ( to open case clause", 8);
    fails("(case k (a b))", "expected ( to open datum list", 9);
    fails("(case k ((a", "expected ) to close datum list", 11);
    fails("(case k ((a) b", "expected ) to close case clause", 14);
    fails("(case k (else b", "expected ) to close else clause", 15);
    fails("(case k ((a) b)", "expected ) to close case", 15);
}

#[test]
fn binding_errors() {
    fails("(let x)", "expected ( to open bindings", 6);
    fails("(let (x) 1)", "expected ( to open binding", 6);
    fails("(let ((1 2)) 1)", "expected identifier", 7);
    fails("(let ((x 1 2)) 1)", "expected ) to close binding", 11);
    fails("(let ((x 1)", "expected ) to close bindings", 11);
    fails("(let ((x 1)) 1", "expected ) to close let", 14);
    fails("(let* () 1", "expected ) to close let*", 10);
    fails("(letrec () 1", "expected ) to close letrec", 12);
    fails("(letrec* () 1", "expected ) to close letrec*", 13);
    fails("(let-values x 1)", "expected ( to open mv bindings", 12);
    fails("(let-values (x) 1)", "expected ( to open mv binding", 13);
    fails("(let-values ((x 1 2)) 1)", "expected ) to close mv binding", 18);
    fails("(let-values ((x 1)", "expected ) to close mv bindings", 18);
    fails("(let-values () 1", "expected ) to close", 16);
    fails("(let*-values () 1", "expected ) to close", 17);
}

#[test]
fn definition_errors() {
    let failure = |src: &str| {
        let e = parse_program(src).unwrap_err();
        (e.message.clone(), e.span.offset)
    };
    assert_eq!(failure("(define 1)"), ("expected identifier".to_string(), 8));
    assert_eq!(failure("(define x 1 2)"), ("expected ) to close definition".to_string(), 12));
    assert_eq!(
        failure("(define (f x . y z) 1)"),
        ("expected ) to close (define (name ...)".to_string(), 17)
    );
    assert_eq!(failure("(define (1) 2)"), ("expected identifier".to_string(), 9));
    assert_eq!(failure("(define-syntax 1 2)"), ("expected identifier".to_string(), 15));
    assert_eq!(failure("(begin (define x 1)"), ("expected ) to close begin".to_string(), 19));
}

#[test]
fn top_level_forms() {
    assert_eq!(
        program("(begin (define x) (begin) (f x))"),
        vec![TopLevelForm::Begin(vec![
            TopLevelForm::Definition(Definition::Variable { name: id("x"), init: None }),
            TopLevelForm::Begin(vec![]),
            TopLevelForm::Expr(apply(var("f"), vec![var("x")])),
        ])]
    );
    assert_eq!(program(""), vec![]);
    assert_eq!(program(" ; nothing\n#| at all |#"), vec![]);
    assert_eq!(
        program("define (f)"),
        vec![TopLevelForm::Expr(var("define")), TopLevelForm::Expr(apply(var("f"), vec![]))]
    );
}

#[test]
fn errors_as_text() {
    let e = parse_expr("(f\n  (g").unwrap_err();
    assert_eq!(
        e.to_string(),
        "parse error at line 2, column 5: expected ) to close application"
    );
    assert_eq!(e.clone(), e);
}

#[test]
fn lexical_errors_are_parse_errors() {
    for src in ["(f \"a", "#| x", "\"\\q\" )"] {
        let lexical = tokenize(src).unwrap_err();
        let expected = ParseError { message: lexical.message.clone(), span: lexical.span };
        assert_eq!(ParseError::from(lexical), expected);
        assert_eq!(parse_expr(src).unwrap_err(), expected);
        assert_eq!(parse_program(src).unwrap_err(), expected);
    }
}

#[test]
fn copies_of_trees() {
    let src = "(define (f a . b) (define c '(1 . #(\"s\" #\\x 2.5 #t))) (lambda d
        (let loop ((x 1)) (cond (a => b) (c d) (else e)))
        (case k ((a) b) (else c)) (when a b) (unless a b) (and a) (or b)
        (let* ((x 1)) x) (letrec ((x 1)) x) (letrec* ((x 1)) x)
        (let-values (((a) b)) a) (let*-values ((c d)) c)
        (if a b) (if a b c) (set! x #vu8(1 2)) (begin `a)))
        (define-syntax m f) (begin (define z) (f 1))";
    let tree = parse_program(src).unwrap();
    let copy: Program = tree.clone();
    assert_eq!(copy, tree);
    assert_eq!(copy.forms.len(), 3);
}
