use r6rs::ast::{CondClause, Datum, Definition, Expr, Ident, Number, TopLevelForm};
use r6rs::parser::{parse_expr, parse_program};

fn id(s: &str) -> Ident {
    Ident(s.to_string())
}

fn parse_ok(src: &str) -> Expr {
    parse_expr(src).unwrap_or_else(|e| panic!("{}", e.to_string()))
}

#[test]
fn parse_number_literal() {
    assert_eq!(parse_ok("42"), Expr::Literal(Datum::Number(Number::Fixnum(42))));
    match parse_ok("3.14") {
        Expr::Literal(Datum::Number(Number::Flonum(text))) => {
            assert_eq!(text.parse::<f64>().unwrap(), 3.14);
        }
        other => panic!("expected a flonum, found {:?}", other),
    }
}

#[test]
fn parse_boolean_and_char_and_string() {
    assert_eq!(parse_ok("#t"), Expr::Literal(Datum::Boolean(true)));
    assert_eq!(parse_ok("#\\a"), Expr::Literal(Datum::Character('a')));
    assert_eq!(
        parse_ok("\"hi\""),
        Expr::Literal(Datum::String("hi".to_string()))
    );
}

#[test]
fn parse_var() {
    assert_eq!(parse_ok("x"), Expr::Var(id("x")));
    assert_eq!(parse_ok("+"), Expr::Var(id("+")));
}

#[test]
fn parse_quote() {
    assert_eq!(
        parse_ok("'a"),
        Expr::Quote(Datum::Symbol("a".to_string()))
    );
    assert_eq!(
        parse_ok("'(1 2 3)"),
        Expr::Quote(list(&[
            Datum::Number(Number::Fixnum(1)),
            Datum::Number(Number::Fixnum(2)),
            Datum::Number(Number::Fixnum(3)),
        ]))
    );
}

#[test]
fn parse_application() {
    assert_eq!(
        parse_ok("(+ 1 2)"),
        Expr::Application {
            operator: Box::new(Expr::Var(id("+"))),
            operands: vec![
                Expr::Literal(Datum::Number(Number::Fixnum(1))),
                Expr::Literal(Datum::Number(Number::Fixnum(2))),
            ],
        }
    );
}

#[test]
fn parse_lambda_fixed_and_rest() {
    let e = parse_ok("(lambda (x) x)");
    match e {
        Expr::Lambda { formals, body } => {
            assert_eq!(formals.fixed, vec![id("x")]);
            assert!(formals.rest.is_none());
            assert_eq!(body.expressions.len(), 1);
        }
        _ => panic!("expected lambda"),
    }
    let e2 = parse_ok("(lambda (a b . rest) rest)");
    match e2 {
        Expr::Lambda { formals, .. } => {
            assert_eq!(formals.fixed, vec![id("a"), id("b")]);
            assert_eq!(formals.rest, Some(id("rest")));
        }
        _ => panic!("expected lambda"),
    }
    let e3 = parse_ok("(lambda args args)");
    match e3 {
        Expr::Lambda { formals, .. } => {
            assert!(formals.fixed.is_empty());
            assert_eq!(formals.rest, Some(id("args")));
        }
        _ => panic!("expected lambda"),
    }
}

#[test]
fn parse_if_two_and_three_arm() {
    let two = parse_ok("(if t c)");
    match two {
        Expr::If { alternate: None, .. } => {}
        _ => panic!("expected if without alternate"),
    }
    let three = parse_ok("(if t c a)");
    match three {
        Expr::If {
            alternate: Some(_), ..
        } => {}
        _ => panic!("expected if with alternate"),
    }
}

#[test]
fn parse_set_bang() {
    assert_eq!(
        parse_ok("(set! x 5)"),
        Expr::SetBang {
            var: id("x"),
            value: Box::new(Expr::Literal(Datum::Number(Number::Fixnum(5)))),
        }
    );
}

#[test]
fn parse_cond_with_arrow_and_else() {
    let e = parse_ok("(cond (a => f) (else b))");
    match e {
        Expr::Cond(clauses) => {
            assert_eq!(clauses.len(), 2);
            assert!(matches!(clauses[0], CondClause::Arrow { .. }));
            assert!(matches!(clauses[1], CondClause::Else { .. }));
        }
        _ => panic!("expected cond"),
    }
}

#[test]
fn parse_case() {
    let e = parse_ok("(case k ((1) a) (else b))");
    match e {
        Expr::Case { key, clauses } => {
            assert_eq!(*key, Expr::Var(id("k")));
            assert_eq!(clauses.len(), 2);
        }
        _ => panic!("expected case"),
    }
}

#[test]
fn parse_let_named_and_plain() {
    let plain = parse_ok("(let ((x 1)) x)");
    match plain {
        Expr::Let { name: None, .. } => {}
        _ => panic!("expected plain let"),
    }
    let named = parse_ok("(let loop ((n 0)) n)");
    match named {
        Expr::Let {
            name: Some(n),
            ..
        } => assert_eq!(n, id("loop")),
        _ => panic!("expected named let"),
    }
}

#[test]
fn parse_let_variants() {
    assert!(matches!(parse_ok("(let* ((x 1)) x)"), Expr::LetStar { .. }));
    assert!(matches!(parse_ok("(letrec ((x 1)) x)"), Expr::LetRec { .. }));
    assert!(matches!(parse_ok("(letrec* ((x 1)) x)"), Expr::LetRecStar { .. }));
}

#[test]
fn parse_let_values() {
    let e = parse_ok("(let-values (((a b) (values 1 2))) a)");
    match e {
        Expr::LetValues { bindings, .. } => {
            assert_eq!(bindings.len(), 1);
            assert_eq!(bindings[0].formals.fixed, vec![id("a"), id("b")]);
        }
        _ => panic!("expected let-values"),
    }
    let e2 = parse_ok("(let*-values (((a) (values 1))) a)");
    assert!(matches!(e2, Expr::LetStarValues { .. }));
}

#[test]
fn parse_begin_and_and_or() {
    assert!(matches!(parse_ok("(begin a b)"), Expr::Begin(v) if v.len() == 2));
    assert!(matches!(parse_ok("(and a b c)"), Expr::And(v) if v.len() == 3));
    assert!(matches!(parse_ok("(or a b)"), Expr::Or(v) if v.len() == 2));
}

#[test]
fn parse_when_unless() {
    assert!(matches!(parse_ok("(when t a b)"), Expr::When { .. }));
    assert!(matches!(parse_ok("(unless t a)"), Expr::Unless { .. }));
}

#[test]
fn parse_program_definitions_and_exprs() {
    let prog = parse_program("(define x 5) (define (f y) (+ y 1)) (f x)").unwrap();
    assert_eq!(prog.forms.len(), 3);
    assert!(matches!(prog.forms[0], TopLevelForm::Definition(Definition::Variable { .. })));
    assert!(matches!(prog.forms[1], TopLevelForm::Definition(Definition::Function { .. })));
    assert!(matches!(prog.forms[2], TopLevelForm::Expr(_)));
}

#[test]
fn parse_define_syntax() {
    let prog = parse_program("(define-syntax kw (lambda (x) x))").unwrap();
    assert!(matches!(
        prog.forms[0],
        TopLevelForm::Definition(Definition::Syntax { .. })
    ));
}

#[test]
fn parse_datum_list_and_vector_and_bytevector() {
    // used via quote so they become Literal datums
    assert!(matches!(parse_ok("'(1 . 2)"), Expr::Quote(_)));
    assert!(matches!(parse_ok("'#(1 2 3)"), Expr::Quote(Datum::Vector(_))));
    assert!(matches!(
        parse_ok("'#vu8(1 2 3)"),
        Expr::Quote(Datum::ByteVector(_))
    ));
}

#[test]
fn parse_datum_comment_skips_next() {
    let e = parse_ok("(+ 1 #;2 3)");
    match e {
        Expr::Application { operands, .. } => assert_eq!(operands.len(), 2),
        _ => panic!("expected application"),
    }
}

#[test]
fn parse_errors() {
    assert!(parse_expr("(").is_err());
    assert!(parse_expr("(lambda x)").is_err()); // no body
    assert!(parse_expr("(let ((x 1) 2) x)").is_err()); // malformed binding
    assert!(parse_expr("(+ 1 2").is_err()); // unclosed
}

fn list(items: &[Datum]) -> Datum {
    let mut d = Datum::Null;
    for it in items.iter().rev() {
        d = Datum::Pair(Box::new(it.clone()), Box::new(d));
    }
    d
}

// silence unused warning for helper
#[test]
fn list_helper_used() {
    let _ = list(&[]);
}
