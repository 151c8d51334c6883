//! What holds of every phrase the grammar reads: it ends behind the place where
//! it begins, its bodies hold expressions, and an error lies at a token.

use crate::lexical::{ErrorView, SpannedView, TokenView};
use crate::model::{
    BindingView, BodyView, CaseClauseView, CondClauseView, DefinitionView, ExprView,
    MvBindingView, TopLevelFormView,
};
use crate::syntax;
use crate::syntax::Form;
use vstd::prelude::*;

verus! {

/// Whether a token sequence ends in the end of input.
pub open spec fn ends(t: Seq<SpannedView>) -> bool {
    t.len() > 0 && t.last().token is Eof
}

/// Whether an error lies at a token.
pub open spec fn at_token(t: Seq<SpannedView>, e: ErrorView) -> bool {
    exists|k: int| 0 <= k < t.len() && e.span == (#[trigger] t[k]).span
}

// ---- Bodies ----

/// Whether every body in an expression, at any depth, holds an expression.
pub open spec fn full_expr(e: ExprView) -> bool
    decreases e,
{
    match e {
        ExprView::Literal(_) | ExprView::Var(_) | ExprView::Quote(_) => true,
        ExprView::Lambda { formals, body } => full_body(body),
        ExprView::If { test, consequent, alternate } => {
            &&& full_expr(*test)
            &&& full_expr(*consequent)
            &&& match alternate {
                Some(a) => full_expr(*a),
                None => true,
            }
        },
        ExprView::SetBang { var, value } => full_expr(*value),
        ExprView::Cond(clauses) => full_cond_clauses(clauses),
        ExprView::Case { key, clauses } => full_expr(*key) && full_case_clauses(clauses),
        ExprView::When { test, body } => full_expr(*test) && full_exprs(body),
        ExprView::Unless { test, body } => full_expr(*test) && full_exprs(body),
        ExprView::And(es) => full_exprs(es),
        ExprView::Or(es) => full_exprs(es),
        ExprView::Let { name, bindings, body } => full_bindings(bindings) && full_body(body),
        ExprView::LetStar { bindings, body } => full_bindings(bindings) && full_body(body),
        ExprView::LetRec { bindings, body } => full_bindings(bindings) && full_body(body),
        ExprView::LetRecStar { bindings, body } => full_bindings(bindings) && full_body(body),
        ExprView::LetValues { bindings, body } => full_mv_bindings(bindings) && full_body(body),
        ExprView::LetStarValues { bindings, body } => full_mv_bindings(bindings) && full_body(
            body,
        ),
        ExprView::Begin(es) => full_exprs(es),
        ExprView::Application { operator, operands } => full_expr(*operator) && full_exprs(
            operands,
        ),
    }
}

pub open spec fn full_body(b: BodyView) -> bool
    decreases b,
{
    full_definitions(b.definitions) && full_exprs(b.expressions) && b.expressions.len() > 0
}

pub open spec fn full_definition(d: DefinitionView) -> bool
    decreases d,
{
    match d {
        DefinitionView::Variable { name, init } => match init {
            Some(e) => full_expr(*e),
            None => true,
        },
        DefinitionView::Function { name, formals, body } => full_body(body),
        DefinitionView::Syntax { keyword, init } => full_expr(*init),
    }
}

pub open spec fn full_binding(b: BindingView) -> bool
    decreases b,
{
    full_expr(*b.init)
}

pub open spec fn full_mv_binding(b: MvBindingView) -> bool
    decreases b,
{
    full_expr(*b.init)
}

pub open spec fn full_case_clause(c: CaseClauseView) -> bool
    decreases c,
{
    match c {
        CaseClauseView::Matches { data, body } => full_exprs(body),
        CaseClauseView::Else { body } => full_exprs(body),
    }
}

pub open spec fn full_cond_clause(c: CondClauseView) -> bool
    decreases c,
{
    match c {
        CondClauseView::Clause { test, body } => full_expr(*test) && full_exprs(body),
        CondClauseView::Arrow { test, recipient } => full_expr(*test) && full_expr(*recipient),
        CondClauseView::Else { body } => full_exprs(body),
    }
}

pub open spec fn full_form(f: TopLevelFormView) -> bool
    decreases f,
{
    match f {
        TopLevelFormView::Definition(d) => full_definition(d),
        TopLevelFormView::Expr(e) => full_expr(e),
        TopLevelFormView::Begin(forms) => full_forms(forms),
    }
}

pub open spec fn full_exprs(v: Seq<ExprView>) -> bool
    decreases v,
{
    forall|i: int| 0 <= i < v.len() ==> full_expr(#[trigger] v[i])
}

pub open spec fn full_definitions(v: Seq<DefinitionView>) -> bool
    decreases v,
{
    forall|i: int| 0 <= i < v.len() ==> full_definition(#[trigger] v[i])
}

pub open spec fn full_bindings(v: Seq<BindingView>) -> bool
    decreases v,
{
    forall|i: int| 0 <= i < v.len() ==> full_binding(#[trigger] v[i])
}

pub open spec fn full_mv_bindings(v: Seq<MvBindingView>) -> bool
    decreases v,
{
    forall|i: int| 0 <= i < v.len() ==> full_mv_binding(#[trigger] v[i])
}

pub open spec fn full_case_clauses(v: Seq<CaseClauseView>) -> bool
    decreases v,
{
    forall|i: int| 0 <= i < v.len() ==> full_case_clause(#[trigger] v[i])
}

pub open spec fn full_cond_clauses(v: Seq<CondClauseView>) -> bool
    decreases v,
{
    forall|i: int| 0 <= i < v.len() ==> full_cond_clause(#[trigger] v[i])
}

pub open spec fn full_forms(v: Seq<TopLevelFormView>) -> bool
    decreases v,
{
    forall|i: int| 0 <= i < v.len() ==> full_form(#[trigger] v[i])
}

// ---- Data ----

pub proof fn lemma_datum(t: Seq<SpannedView>, p: int)
    requires
        ends(t),
        0 <= p < t.len(),
    ensures
        syntax::datum(t, p) matches Ok((v, q)) ==> p < q < t.len(),
        syntax::datum(t, p) matches Err(e) ==> at_token(t, e),
    decreases syntax::left(t, p), 1nat,
{
    match syntax::tok(t, p) {
        TokenView::DatumComment => {
            lemma_datum(t, p + 1);
            if let Ok((_, q)) = syntax::datum(t, p + 1) {
                lemma_datum(t, q);
            }
        },
        TokenView::Quote
        | TokenView::QuasiQuote
        | TokenView::Unquote
        | TokenView::UnquoteSplicing => lemma_datum(t, p + 1),
        TokenView::VectorPrefix => lemma_data(t, p + 1),
        TokenView::ByteVectorPrefix => lemma_octets(t, p + 1),
        TokenView::LeftParen => lemma_list_rest(t, p + 1),
        _ => {},
    }
}

pub proof fn lemma_data(t: Seq<SpannedView>, p: int)
    requires
        ends(t),
        0 <= p < t.len(),
    ensures
        syntax::data(t, p) matches Ok((v, q)) ==> p <= q < t.len(),
        syntax::data(t, p) matches Err(e) ==> at_token(t, e),
    decreases syntax::left(t, p), 2nat,
{
    if !syntax::at_close(t, p) {
        lemma_datum(t, p);
        if let Ok((first, q)) = syntax::datum(t, p) {
            lemma_data(t, q);
        }
    }
}

pub proof fn lemma_octets(t: Seq<SpannedView>, p: int)
    requires
        ends(t),
        0 <= p < t.len(),
    ensures
        syntax::octets(t, p) matches Ok((v, q)) ==> p <= q < t.len(),
        syntax::octets(t, p) matches Err(e) ==> at_token(t, e),
    decreases syntax::left(t, p), 2nat,
{
    if !syntax::at_close(t, p) {
        lemma_datum(t, p);
        if let Ok((first, q)) = syntax::datum(t, p) {
            lemma_octets(t, q);
        }
    }
}

pub proof fn lemma_list_rest(t: Seq<SpannedView>, p: int)
    requires
        ends(t),
        0 <= p < t.len(),
    ensures
        syntax::list_rest(t, p) matches Ok((v, q)) ==> p <= q < t.len(),
        syntax::list_rest(t, p) matches Err(e) ==> at_token(t, e),
    decreases syntax::left(t, p), 2nat,
{
    if syntax::tok(t, p) is Dot {
        lemma_datum(t, p + 1);
    } else if !syntax::at_close(t, p) {
        lemma_datum(t, p);
        if let Ok((first, q)) = syntax::datum(t, p) {
            lemma_list_rest(t, q);
        }
    }
}

// ---- Formals ----

pub proof fn lemma_formals_rest(t: Seq<SpannedView>, p: int)
    requires
        ends(t),
        0 <= p < t.len(),
    ensures
        syntax::formals_rest(t, p) matches Ok((v, q)) ==> p <= q < t.len(),
        syntax::formals_rest(t, p) matches Err(e) ==> at_token(t, e),
    decreases syntax::left(t, p),
{
    if !syntax::at_close(t, p) && syntax::tok(t, p) is Symbol {
        lemma_formals_rest(t, p + 1);
    }
}

pub proof fn lemma_formals(t: Seq<SpannedView>, p: int)
    requires
        ends(t),
        0 <= p < t.len(),
    ensures
        syntax::formals(t, p) matches Ok((v, q)) ==> p < q < t.len(),
        syntax::formals(t, p) matches Err(e) ==> at_token(t, e),
{
    if syntax::tok(t, p) is LeftParen {
        lemma_formals_rest(t, p + 1);
    }
}

// ---- Expressions ----

pub proof fn lemma_expr(t: Seq<SpannedView>, p: int)
    requires
        ends(t),
        0 <= p < t.len(),
    ensures
        syntax::expr(t, p) matches Ok((v, q)) ==> p < q < t.len() && full_expr(v),
        syntax::expr(t, p) matches Err(e) ==> at_token(t, e),
    decreases syntax::left(t, p), 1nat,
{
    match syntax::tok(t, p) {
        TokenView::DatumComment => {
            lemma_datum(t, p + 1);
            if let Ok((_, q)) = syntax::datum(t, p + 1) {
                lemma_expr(t, q);
            }
        },
        TokenView::Quote => lemma_datum(t, p + 1),
        TokenView::QuasiQuote | TokenView::Unquote | TokenView::UnquoteSplicing => {
            lemma_datum(t, p + 1);
            if let Ok((e, q)) = syntax::expr(t, p) {
                assert(full_expr(e)) by {
                    reveal_with_fuel(full_expr, 3);
                    reveal_with_fuel(full_exprs, 3);
                }
            }
        },
        TokenView::VectorPrefix | TokenView::ByteVectorPrefix => lemma_datum(t, p),
        TokenView::LeftParen => lemma_list_expr(t, p + 1),
        _ => {},
    }
}

pub proof fn lemma_exprs(t: Seq<SpannedView>, p: int)
    requires
        ends(t),
        0 <= p < t.len(),
    ensures
        syntax::exprs(t, p) matches Ok((v, q)) ==> p <= q < t.len() && full_exprs(v),
        syntax::exprs(t, p) matches Err(e) ==> at_token(t, e),
    decreases syntax::left(t, p), 2nat,
{
    if !syntax::at_close(t, p) {
        lemma_expr(t, p);
        if let Ok((first, q)) = syntax::expr(t, p) {
            lemma_exprs(t, q);
        }
    }
}

pub proof fn lemma_list_expr(t: Seq<SpannedView>, p: int)
    requires
        ends(t),
        0 <= p < t.len(),
    ensures
        syntax::list_expr(t, p) matches Ok((v, q)) ==> p < q < t.len() && full_expr(v),
        syntax::list_expr(t, p) matches Err(e) ==> at_token(t, e),
    decreases syntax::left(t, p), 5nat,
{
    if syntax::tok(t, p) is RightParen {
    } else {
        match syntax::form_at(t, p) {
            Some(form) => lemma_special_form(t, p + 1, form),
            None => lemma_application(t, p),
        }
    }
}

pub proof fn lemma_application(t: Seq<SpannedView>, p: int)
    requires
        ends(t),
        0 <= p < t.len(),
    ensures
        syntax::application(t, p) matches Ok((v, q)) ==> p < q < t.len() && full_expr(v),
        syntax::application(t, p) matches Err(e) ==> at_token(t, e),
    decreases syntax::left(t, p), 4nat,
{
    lemma_expr(t, p);
    if let Ok((operator, q)) = syntax::expr(t, p) {
        lemma_exprs(t, q);
    }
}

#[verifier::rlimit(30)]
pub proof fn lemma_special_form(t: Seq<SpannedView>, p: int, form: Form)
    requires
        ends(t),
        0 <= p < t.len(),
    ensures
        syntax::special_form(t, p, form) matches Ok((v, q)) ==> p < q < t.len() && full_expr(v),
        syntax::special_form(t, p, form) matches Err(e) ==> at_token(t, e),
    decreases syntax::left(t, p), 6nat,
{
    match form {
        Form::Quote => lemma_datum(t, p),
        Form::Lambda => lemma_lambda(t, p),
        Form::If => lemma_if_form(t, p),
        Form::SetBang => lemma_set_form(t, p),
        Form::Cond => lemma_cond_clauses(t, p),
        Form::Case => lemma_case_form(t, p),
        Form::When | Form::Unless => lemma_tested_body(t, p),
        Form::And | Form::Or | Form::Begin => lemma_exprs(t, p),
        Form::Let => lemma_let_form(t, p),
        Form::LetStar => lemma_binding_form(t, p, "expected ) to close let*"@),
        Form::LetRec => lemma_binding_form(t, p, "expected ) to close letrec"@),
        Form::LetRecStar => lemma_binding_form(t, p, "expected ) to close letrec*"@),
        Form::LetValues | Form::LetStarValues => lemma_mv_binding_form(t, p),
    }
}

pub proof fn lemma_lambda(t: Seq<SpannedView>, p: int)
    requires
        ends(t),
        0 <= p < t.len(),
    ensures
        syntax::lambda(t, p) matches Ok((v, q)) ==> p < q < t.len() && full_expr(v),
        syntax::lambda(t, p) matches Err(e) ==> at_token(t, e),
    decreases syntax::left(t, p), 4nat,
{
    lemma_formals(t, p);
    if let Ok((formals, q)) = syntax::formals(t, p) {
        lemma_body(t, q);
    }
}

pub proof fn lemma_if_form(t: Seq<SpannedView>, p: int)
    requires
        ends(t),
        0 <= p < t.len(),
    ensures
        syntax::if_form(t, p) matches Ok((v, q)) ==> p < q < t.len() && full_expr(v),
        syntax::if_form(t, p) matches Err(e) ==> at_token(t, e),
    decreases syntax::left(t, p), 4nat,
{
    lemma_expr(t, p);
    if let Ok((test, q)) = syntax::expr(t, p) {
        lemma_expr(t, q);
        if let Ok((consequent, r)) = syntax::expr(t, q) {
            lemma_expr(t, r);
        }
    }
}

pub proof fn lemma_set_form(t: Seq<SpannedView>, p: int)
    requires
        ends(t),
        0 <= p < t.len(),
    ensures
        syntax::set_form(t, p) matches Ok((v, q)) ==> p < q < t.len() && full_expr(v),
        syntax::set_form(t, p) matches Err(e) ==> at_token(t, e),
    decreases syntax::left(t, p), 4nat,
{
    if syntax::tok(t, p) is Symbol {
        lemma_expr(t, p + 1);
    }
}

pub proof fn lemma_cond_clauses(t: Seq<SpannedView>, p: int)
    requires
        ends(t),
        0 <= p < t.len(),
    ensures
        syntax::cond_clauses(t, p) matches Ok((v, q)) ==> p <= q < t.len() && full_cond_clauses(v),
        syntax::cond_clauses(t, p) matches Err(e) ==> at_token(t, e),
    decreases syntax::left(t, p), 4nat,
{
    if !syntax::at_close(t, p) {
        lemma_cond_clause(t, p);
        if let Ok((first, q)) = syntax::cond_clause(t, p) {
            lemma_cond_clauses(t, q);
        }
    }
}

pub proof fn lemma_cond_clause(t: Seq<SpannedView>, p: int)
    requires
        ends(t),
        0 <= p < t.len(),
    ensures
        syntax::cond_clause(t, p) matches Ok((v, q)) ==> p < q < t.len() && full_cond_clause(v),
        syntax::cond_clause(t, p) matches Err(e) ==> at_token(t, e),
    decreases syntax::left(t, p), 3nat,
{
    if syntax::tok(t, p) is LeftParen {
        if syntax::is_symbol(t, p + 1, "else"@) {
            lemma_exprs(t, p + 2);
        } else {
            lemma_expr(t, p + 1);
            if let Ok((test, q)) = syntax::expr(t, p + 1) {
                if syntax::is_symbol(t, q, "=>"@) {
                    lemma_expr(t, q + 1);
                } else {
                    lemma_exprs(t, q);
                }
            }
        }
    }
}

pub proof fn lemma_case_form(t: Seq<SpannedView>, p: int)
    requires
        ends(t),
        0 <= p < t.len(),
    ensures
        syntax::case_form(t, p) matches Ok((v, q)) ==> p < q < t.len() && full_expr(v),
        syntax::case_form(t, p) matches Err(e) ==> at_token(t, e),
    decreases syntax::left(t, p), 5nat,
{
    lemma_expr(t, p);
    if let Ok((key, q)) = syntax::expr(t, p) {
        lemma_case_clauses(t, q);
    }
}

pub proof fn lemma_case_clauses(t: Seq<SpannedView>, p: int)
    requires
        ends(t),
        0 <= p < t.len(),
    ensures
        syntax::case_clauses(t, p) matches Ok((v, q)) ==> p <= q < t.len() && full_case_clauses(v),
        syntax::case_clauses(t, p) matches Err(e) ==> at_token(t, e),
    decreases syntax::left(t, p), 4nat,
{
    if !syntax::at_close(t, p) {
        lemma_case_clause(t, p);
        if let Ok((first, q)) = syntax::case_clause(t, p) {
            lemma_case_clauses(t, q);
        }
    }
}

pub proof fn lemma_case_clause(t: Seq<SpannedView>, p: int)
    requires
        ends(t),
        0 <= p < t.len(),
    ensures
        syntax::case_clause(t, p) matches Ok((v, q)) ==> p < q < t.len() && full_case_clause(v),
        syntax::case_clause(t, p) matches Err(e) ==> at_token(t, e),
    decreases syntax::left(t, p), 3nat,
{
    if syntax::tok(t, p) is LeftParen {
        if syntax::is_symbol(t, p + 1, "else"@) {
            lemma_exprs(t, p + 2);
        } else if syntax::tok(t, p + 1) is LeftParen {
            lemma_data(t, p + 2);
            if let Ok((data, q)) = syntax::data(t, p + 2) {
                if syntax::tok(t, q) is RightParen {
                    lemma_exprs(t, q + 1);
                }
            }
        }
    }
}

pub proof fn lemma_tested_body(t: Seq<SpannedView>, p: int)
    requires
        ends(t),
        0 <= p < t.len(),
    ensures
        syntax::tested_body(t, p) matches Ok((v, q)) ==>
            p < q < t.len() && full_expr(v.0) && full_exprs(v.1),
        syntax::tested_body(t, p) matches Err(e) ==> at_token(t, e),
    decreases syntax::left(t, p), 4nat,
{
    lemma_expr(t, p);
    if let Ok((test, q)) = syntax::expr(t, p) {
        lemma_exprs(t, q);
    }
}

pub proof fn lemma_let_form(t: Seq<SpannedView>, p: int)
    requires
        ends(t),
        0 <= p < t.len(),
    ensures
        syntax::let_form(t, p) matches Ok((v, q)) ==> p < q < t.len() && full_expr(v),
        syntax::let_form(t, p) matches Err(e) ==> at_token(t, e),
    decreases syntax::left(t, p), 5nat,
{
    if syntax::let_name(t, p) is Some {
        lemma_binding_form(t, p + 1, "expected ) to close let"@);
    } else {
        lemma_binding_form(t, p, "expected ) to close let"@);
    }
}

pub proof fn lemma_binding_form(t: Seq<SpannedView>, p: int, message: Seq<char>)
    requires
        ends(t),
        0 <= p < t.len(),
    ensures
        syntax::binding_form(t, p, message) matches Ok((v, q)) ==>
            p < q < t.len() && full_bindings(v.0) && full_body(v.1),
        syntax::binding_form(t, p, message) matches Err(e) ==> at_token(t, e),
    decreases syntax::left(t, p), 4nat,
{
    lemma_bindings(t, p);
    if let Ok((bindings, q)) = syntax::bindings(t, p) {
        lemma_body(t, q);
    }
}

pub proof fn lemma_bindings(t: Seq<SpannedView>, p: int)
    requires
        ends(t),
        0 <= p < t.len(),
    ensures
        syntax::bindings(t, p) matches Ok((v, q)) ==> p < q < t.len() && full_bindings(v),
        syntax::bindings(t, p) matches Err(e) ==> at_token(t, e),
    decreases syntax::left(t, p), 3nat,
{
    if syntax::tok(t, p) is LeftParen {
        lemma_binding_items(t, p + 1);
    }
}

pub proof fn lemma_binding_items(t: Seq<SpannedView>, p: int)
    requires
        ends(t),
        0 <= p < t.len(),
    ensures
        syntax::binding_items(t, p) matches Ok((v, q)) ==> p <= q < t.len() && full_bindings(v),
        syntax::binding_items(t, p) matches Err(e) ==> at_token(t, e),
    decreases syntax::left(t, p), 3nat,
{
    if !syntax::at_close(t, p) {
        lemma_binding(t, p);
        if let Ok((first, q)) = syntax::binding(t, p) {
            lemma_binding_items(t, q);
        }
    }
}

pub proof fn lemma_binding(t: Seq<SpannedView>, p: int)
    requires
        ends(t),
        0 <= p < t.len(),
    ensures
        syntax::binding(t, p) matches Ok((v, q)) ==> p < q < t.len() && full_binding(v),
        syntax::binding(t, p) matches Err(e) ==> at_token(t, e),
    decreases syntax::left(t, p), 2nat,
{
    if syntax::tok(t, p) is LeftParen && syntax::tok(t, p + 1) is Symbol {
        lemma_expr(t, p + 2);
    }
}

pub proof fn lemma_mv_binding_form(t: Seq<SpannedView>, p: int)
    requires
        ends(t),
        0 <= p < t.len(),
    ensures
        syntax::mv_binding_form(t, p) matches Ok((v, q)) ==>
            p < q < t.len() && full_mv_bindings(v.0) && full_body(v.1),
        syntax::mv_binding_form(t, p) matches Err(e) ==> at_token(t, e),
    decreases syntax::left(t, p), 4nat,
{
    lemma_mv_bindings(t, p);
    if let Ok((bindings, q)) = syntax::mv_bindings(t, p) {
        lemma_body(t, q);
    }
}

pub proof fn lemma_mv_bindings(t: Seq<SpannedView>, p: int)
    requires
        ends(t),
        0 <= p < t.len(),
    ensures
        syntax::mv_bindings(t, p) matches Ok((v, q)) ==> p < q < t.len() && full_mv_bindings(v),
        syntax::mv_bindings(t, p) matches Err(e) ==> at_token(t, e),
    decreases syntax::left(t, p), 3nat,
{
    if syntax::tok(t, p) is LeftParen {
        lemma_mv_binding_items(t, p + 1);
    }
}

pub proof fn lemma_mv_binding_items(t: Seq<SpannedView>, p: int)
    requires
        ends(t),
        0 <= p < t.len(),
    ensures
        syntax::mv_binding_items(t, p) matches Ok((v, q)) ==>
            p <= q < t.len() && full_mv_bindings(v),
        syntax::mv_binding_items(t, p) matches Err(e) ==> at_token(t, e),
    decreases syntax::left(t, p), 3nat,
{
    if !syntax::at_close(t, p) {
        lemma_mv_binding(t, p);
        if let Ok((first, q)) = syntax::mv_binding(t, p) {
            lemma_mv_binding_items(t, q);
        }
    }
}

pub proof fn lemma_mv_binding(t: Seq<SpannedView>, p: int)
    requires
        ends(t),
        0 <= p < t.len(),
    ensures
        syntax::mv_binding(t, p) matches Ok((v, q)) ==> p < q < t.len() && full_mv_binding(v),
        syntax::mv_binding(t, p) matches Err(e) ==> at_token(t, e),
    decreases syntax::left(t, p), 2nat,
{
    if syntax::tok(t, p) is LeftParen {
        lemma_formals(t, p + 1);
        if let Ok((formals, q)) = syntax::formals(t, p + 1) {
            lemma_expr(t, q);
        }
    }
}

// ---- Bodies and definitions ----

pub proof fn lemma_body(t: Seq<SpannedView>, p: int)
    requires
        ends(t),
        0 <= p < t.len(),
    ensures
        syntax::body(t, p) matches Ok((v, q)) ==> p < q < t.len() && full_body(v),
        syntax::body(t, p) matches Err(e) ==> at_token(t, e),
    decreases syntax::left(t, p), 3nat,
{
    lemma_definitions(t, p);
    if let Ok((definitions, q)) = syntax::definitions(t, p) {
        lemma_body_exprs(t, q);
    }
}

pub proof fn lemma_definitions(t: Seq<SpannedView>, p: int)
    requires
        ends(t),
        0 <= p < t.len(),
    ensures
        syntax::definitions(t, p) matches Ok((v, q)) ==> p <= q < t.len() && full_definitions(v),
        syntax::definitions(t, p) matches Err(e) ==> at_token(t, e),
    decreases syntax::left(t, p), 2nat,
{
    if syntax::tok(t, p) is DatumComment {
        lemma_datum(t, p + 1);
        if let Ok((_, q)) = syntax::datum(t, p + 1) {
            lemma_definitions(t, q);
        }
    } else if syntax::at_definition(t, p) {
        lemma_definition(t, p + 1);
        if let Ok((d, q)) = syntax::definition(t, p + 1) {
            if syntax::tok(t, q) is RightParen {
                lemma_definitions(t, q + 1);
            }
        }
    }
}

pub proof fn lemma_body_exprs(t: Seq<SpannedView>, p: int)
    requires
        ends(t),
        0 <= p < t.len(),
    ensures
        syntax::body_exprs(t, p) matches Ok((v, q)) ==>
            p <= q < t.len() && full_exprs(v) && (v.len() > 0 ==> p < q),
        syntax::body_exprs(t, p) matches Err(e) ==> at_token(t, e),
    decreases syntax::left(t, p), 2nat,
{
    if syntax::at_close(t, p) {
    } else if syntax::tok(t, p) is DatumComment {
        lemma_datum(t, p + 1);
        if let Ok((_, q)) = syntax::datum(t, p + 1) {
            lemma_body_exprs(t, q);
        }
    } else {
        lemma_expr(t, p);
        if let Ok((e, q)) = syntax::expr(t, p) {
            lemma_body_exprs(t, q);
        }
    }
}

pub proof fn lemma_definition(t: Seq<SpannedView>, p: int)
    requires
        ends(t),
        0 <= p < t.len(),
    ensures
        syntax::definition(t, p) matches Ok((v, q)) ==> p < q < t.len() && full_definition(v),
        syntax::definition(t, p) matches Err(e) ==> at_token(t, e),
    decreases syntax::left(t, p), 5nat,
{
    if syntax::is_symbol(t, p, "define"@) {
        lemma_define_rest(t, p + 1);
    } else if syntax::is_symbol(t, p, "define-syntax"@) {
        if syntax::tok(t, p + 1) is Symbol {
            lemma_expr(t, p + 2);
        }
    }
}

pub proof fn lemma_define_rest(t: Seq<SpannedView>, p: int)
    requires
        ends(t),
        0 <= p < t.len(),
    ensures
        syntax::define_rest(t, p) matches Ok((v, q)) ==> p < q < t.len() && full_definition(v),
        syntax::define_rest(t, p) matches Err(e) ==> at_token(t, e),
    decreases syntax::left(t, p), 4nat,
{
    if syntax::tok(t, p) is LeftParen {
        if syntax::tok(t, p + 1) is Symbol {
            lemma_formals_rest(t, p + 2);
            if let Ok((formals, q)) = syntax::formals_rest(t, p + 2) {
                if syntax::tok(t, q) is RightParen {
                    lemma_body(t, q + 1);
                }
            }
        }
    } else if syntax::tok(t, p) is Symbol {
        lemma_expr(t, p + 1);
    }
}

// ---- Top level ----

pub proof fn lemma_top_form(t: Seq<SpannedView>, p: int)
    requires
        ends(t),
        0 <= p < t.len(),
    ensures
        syntax::top_form(t, p) matches Ok((v, q)) ==> p < q < t.len() && full_form(v),
        syntax::top_form(t, p) matches Err(e) ==> at_token(t, e),
    decreases syntax::left(t, p), 1nat,
{
    if syntax::tok(t, p) is DatumComment {
        lemma_datum(t, p + 1);
        if let Ok((_, q)) = syntax::datum(t, p + 1) {
            lemma_top_form(t, q);
        }
    } else if syntax::at_definition(t, p) {
        lemma_definition(t, p + 1);
    } else if syntax::tok(t, p) is LeftParen && syntax::is_symbol(t, p + 1, "begin"@) {
        lemma_top_forms(t, p + 2);
    } else {
        lemma_expr(t, p);
    }
}

pub proof fn lemma_top_forms(t: Seq<SpannedView>, p: int)
    requires
        ends(t),
        0 <= p < t.len(),
    ensures
        syntax::top_forms(t, p) matches Ok((v, q)) ==> p <= q < t.len() && full_forms(v),
        syntax::top_forms(t, p) matches Err(e) ==> at_token(t, e),
    decreases syntax::left(t, p), 2nat,
{
    if !syntax::at_close(t, p) {
        lemma_top_form(t, p);
        if let Ok((first, q)) = syntax::top_form(t, p) {
            lemma_top_forms(t, q);
        }
    }
}

pub proof fn lemma_program_from(t: Seq<SpannedView>, p: int)
    requires
        ends(t),
        0 <= p < t.len(),
    ensures
        syntax::program_from(t, p) matches Ok((v, q)) ==> p <= q < t.len() && full_forms(v),
        syntax::program_from(t, p) matches Err(e) ==> at_token(t, e),
    decreases syntax::left(t, p),
{
    if !(syntax::tok(t, p) is Eof) {
        lemma_top_form(t, p);
        if let Ok((first, q)) = syntax::top_form(t, p) {
            lemma_program_from(t, q);
        }
    }
}

/// A program ends at the end of input.
pub proof fn lemma_program_end(t: Seq<SpannedView>, p: int)
    requires
        ends(t),
        0 <= p < t.len(),
    ensures
        syntax::program_from(t, p) matches Ok((_, q)) ==> syntax::tok(t, q) is Eof,
    decreases syntax::left(t, p),
{
    if !(syntax::tok(t, p) is Eof) {
        lemma_top_form(t, p);
        if let Ok((_, q)) = syntax::top_form(t, p) {
            lemma_program_end(t, q);
        }
    }
}

} // verus!
