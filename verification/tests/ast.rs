use r6rs::ast::{
    Binding, Body, CaseClause, CondClause, Datum, Definition, Expr, Formals, Ident, Number, Program,
    TopLevelForm,
};

fn id(s: &str) -> Ident {
    Ident(s.to_string())
}

#[test]
fn ident_display_and_eq() {
    assert_eq!(id("x").to_string(), "x");
    assert_eq!(id("x"), id("x"));
    assert_ne!(id("x"), id("y"));
}

#[test]
fn empty_list_datum() {
    assert_eq!(Datum::Null, Datum::Null);
    assert_ne!(Datum::Null, Datum::Boolean(false));
}

#[test]
fn fixed_formals() {
    let f = Formals {
        fixed: vec![id("a"), id("b"), id("c")],
        rest: None,
    };
    assert_eq!(f.fixed.len(), 3);
    assert!(f.rest.is_none());
}

#[test]
fn variadic_formals() {
    let f = Formals {
        fixed: vec![id("a"), id("b")],
        rest: Some(id("rest")),
    };
    assert_eq!(f.fixed.len(), 2);
    assert_eq!(f.rest, Some(id("rest")));
}

#[test]
fn fully_variadic_formals() {
    let f = Formals {
        fixed: vec![],
        rest: Some(id("args")),
    };
    assert!(f.fixed.is_empty());
    assert_eq!(f.rest, Some(id("args")));
}

#[test]
fn lambda_expr() {
    let body = Body {
        definitions: vec![],
        expressions: vec![Expr::Var(id("x"))],
    };
    let lambda = Expr::Lambda {
        formals: Formals {
            fixed: vec![id("x")],
            rest: None,
        },
        body,
    };
    if let Expr::Lambda { formals, body } = lambda {
        assert_eq!(formals.fixed, vec![id("x")]);
        assert_eq!(body.expressions.len(), 1);
    } else {
        panic!("expected Lambda");
    }
}

#[test]
fn if_without_alternate() {
    let iff = Expr::If {
        test: Box::new(Expr::Var(id("t"))),
        consequent: Box::new(Expr::Var(id("c"))),
        alternate: None,
    };
    match iff {
        Expr::If {
            alternate: None, ..
        } => {}
        _ => panic!("expected If with no alternate"),
    }
}

#[test]
fn application_form() {
    let app = Expr::Application {
        operator: Box::new(Expr::Var(id("+"))),
        operands: vec![Expr::Literal(Datum::Number(Number::Fixnum(1)))],
    };
    match app {
        Expr::Application {
            operator,
            operands,
        } => {
            assert_eq!(*operator, Expr::Var(id("+")));
            assert_eq!(operands.len(), 1);
        }
        _ => panic!("expected Application"),
    }
}

#[test]
fn named_let() {
    let expr = Expr::Let {
        name: Some(id("loop")),
        bindings: vec![Binding {
            name: id("n"),
            init: Box::new(Expr::Literal(Datum::Number(Number::Fixnum(0)))),
        }],
        body: Body {
            definitions: vec![],
            expressions: vec![],
        },
    };
    match expr {
        Expr::Let {
            name: Some(ref n),
            ..
        } => assert_eq!(*n, id("loop")),
        _ => panic!("expected named Let"),
    }
}

#[test]
fn cond_arrow_clause() {
    let clause = CondClause::Arrow {
        test: Box::new(Expr::Var(id("x"))),
        recipient: Box::new(Expr::Var(id("f"))),
    };
    match clause {
        CondClause::Arrow { test, recipient } => {
            assert_eq!(*test, Expr::Var(id("x")));
            assert_eq!(*recipient, Expr::Var(id("f")));
        }
        _ => panic!("expected Arrow"),
    }
}

#[test]
fn case_else_clause() {
    let clause = CaseClause::Else {
        body: vec![Expr::Var(id("default"))],
    };
    match clause {
        CaseClause::Else { body } => assert_eq!(body.len(), 1),
        _ => panic!("expected Else"),
    }
}

#[test]
fn function_definition() {
    let def = Definition::Function {
        name: id("add3"),
        formals: Formals {
            fixed: vec![id("x")],
            rest: None,
        },
        body: Body {
            definitions: vec![],
            expressions: vec![Expr::Var(id("x"))],
        },
    };
    match def {
        Definition::Function { name, .. } => assert_eq!(name, id("add3")),
        _ => panic!("expected Function definition"),
    }
}

#[test]
fn program_with_top_level_forms() {
    let prog = Program {
        forms: vec![
            TopLevelForm::Definition(Definition::Variable {
                name: id("x"),
                init: Some(Box::new(Expr::Literal(Datum::Number(Number::Fixnum(
                    42,
                ))))),
            }),
            TopLevelForm::Expr(Expr::Var(id("x"))),
        ],
    };
    assert_eq!(prog.forms.len(), 2);
}
