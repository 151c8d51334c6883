//! What a phrase means does not depend on what follows it; so programs one
//! behind the other mean their forms one behind the other.

use crate::ascii::NEWLINE;
use crate::balance;
use crate::comments;
use crate::laws;
use crate::layout;
use crate::lexical;
use crate::lexical::{ErrorView, SpannedView, TokenView};
use crate::model::{DatumView, TopLevelFormView};
use crate::soundness;
use crate::surroundings;
use crate::syntax;
use crate::syntax::Form;
use vstd::prelude::*;

verus! {

/// Whether two token sequences agree up to the index `n`.
pub open spec fn agree(t: Seq<SpannedView>, u: Seq<SpannedView>, n: int) -> bool {
    &&& soundness::ends(t)
    &&& forall|p: int|
        #![trigger syntax::tok(t, p)]
        #![trigger syntax::tok(u, p)]
        0 <= p < n ==> syntax::tok(t, p) == syntax::tok(u, p)
}

proof fn local_datum(t: Seq<SpannedView>, u: Seq<SpannedView>, n: int, p: int)
    requires
        agree(t, u, n),
        0 <= p < t.len(),
        syntax::datum(t, p) matches Ok((_, q)) && q <= n,
    ensures
        syntax::datum(u, p) == syntax::datum(t, p),
    decreases syntax::left(t, p), 1nat,
{
    soundness::lemma_datum(t, p);
    match syntax::tok(t, p) {
        TokenView::DatumComment => {
            soundness::lemma_datum(t, p + 1);
            let q = syntax::datum(t, p + 1)->Ok_0.1;
            soundness::lemma_datum(t, q);
            local_datum(t, u, n, p + 1);
            local_datum(t, u, n, q);
        },
        TokenView::Quote
        | TokenView::QuasiQuote
        | TokenView::Unquote
        | TokenView::UnquoteSplicing => local_datum(t, u, n, p + 1),
        TokenView::VectorPrefix => local_data(t, u, n, p + 1),
        TokenView::ByteVectorPrefix => local_octets(t, u, n, p + 1),
        TokenView::LeftParen => local_list_rest(t, u, n, p + 1),
        _ => {},
    }
}

proof fn local_data(t: Seq<SpannedView>, u: Seq<SpannedView>, n: int, p: int)
    requires
        agree(t, u, n),
        0 <= p < t.len(),
        syntax::data(t, p) matches Ok((_, q)) && q < n,
    ensures
        syntax::data(u, p) == syntax::data(t, p),
    decreases syntax::left(t, p), 2nat,
{
    soundness::lemma_data(t, p);
    if !syntax::at_close(t, p) {
        soundness::lemma_datum(t, p);
        let q = syntax::datum(t, p)->Ok_0.1;
        soundness::lemma_data(t, q);
        local_datum(t, u, n, p);
        local_data(t, u, n, q);
    }
}

proof fn local_octets(t: Seq<SpannedView>, u: Seq<SpannedView>, n: int, p: int)
    requires
        agree(t, u, n),
        0 <= p < t.len(),
        syntax::octets(t, p) matches Ok((_, q)) && q < n,
    ensures
        syntax::octets(u, p) == syntax::octets(t, p),
    decreases syntax::left(t, p), 2nat,
{
    soundness::lemma_octets(t, p);
    if !syntax::at_close(t, p) {
        soundness::lemma_datum(t, p);
        let q = syntax::datum(t, p)->Ok_0.1;
        soundness::lemma_octets(t, q);
        local_datum(t, u, n, p);
        local_octets(t, u, n, q);
    }
}

proof fn local_list_rest(t: Seq<SpannedView>, u: Seq<SpannedView>, n: int, p: int)
    requires
        agree(t, u, n),
        0 <= p < t.len(),
        syntax::list_rest(t, p) matches Ok((_, q)) && q < n,
    ensures
        syntax::list_rest(u, p) == syntax::list_rest(t, p),
    decreases syntax::left(t, p), 2nat,
{
    soundness::lemma_list_rest(t, p);
    if syntax::tok(t, p) is Dot {
        local_datum(t, u, n, p + 1);
    } else if !syntax::at_close(t, p) {
        soundness::lemma_datum(t, p);
        let q = syntax::datum(t, p)->Ok_0.1;
        soundness::lemma_list_rest(t, q);
        local_datum(t, u, n, p);
        local_list_rest(t, u, n, q);
    }
}

proof fn local_formals_rest(t: Seq<SpannedView>, u: Seq<SpannedView>, n: int, p: int)
    requires
        agree(t, u, n),
        0 <= p < t.len(),
        syntax::formals_rest(t, p) matches Ok((_, q)) && q < n,
    ensures
        syntax::formals_rest(u, p) == syntax::formals_rest(t, p),
    decreases syntax::left(t, p),
{
    soundness::lemma_formals_rest(t, p);
    if syntax::tok(t, p) is Symbol {
        local_formals_rest(t, u, n, p + 1);
    }
}

proof fn local_formals(t: Seq<SpannedView>, u: Seq<SpannedView>, n: int, p: int)
    requires
        agree(t, u, n),
        0 <= p < t.len(),
        syntax::formals(t, p) matches Ok((_, q)) && q <= n,
    ensures
        syntax::formals(u, p) == syntax::formals(t, p),
{
    soundness::lemma_formals(t, p);
    if syntax::tok(t, p) is LeftParen {
        local_formals_rest(t, u, n, p + 1);
    }
}

proof fn local_expr(t: Seq<SpannedView>, u: Seq<SpannedView>, n: int, p: int)
    requires
        agree(t, u, n),
        0 <= p < t.len(),
        syntax::expr(t, p) matches Ok((_, q)) && q <= n,
    ensures
        syntax::expr(u, p) == syntax::expr(t, p),
    decreases syntax::left(t, p), 1nat,
{
    soundness::lemma_expr(t, p);
    match syntax::tok(t, p) {
        TokenView::DatumComment => {
            soundness::lemma_datum(t, p + 1);
            let q = syntax::datum(t, p + 1)->Ok_0.1;
            soundness::lemma_expr(t, q);
            local_datum(t, u, n, p + 1);
            local_expr(t, u, n, q);
        },
        TokenView::Quote
        | TokenView::QuasiQuote
        | TokenView::Unquote
        | TokenView::UnquoteSplicing => local_datum(t, u, n, p + 1),
        TokenView::VectorPrefix | TokenView::ByteVectorPrefix => local_datum(t, u, n, p),
        TokenView::LeftParen => local_list_expr(t, u, n, p + 1),
        _ => {},
    }
}

proof fn local_exprs(t: Seq<SpannedView>, u: Seq<SpannedView>, n: int, p: int)
    requires
        agree(t, u, n),
        0 <= p < t.len(),
        syntax::exprs(t, p) matches Ok((_, q)) && q < n,
    ensures
        syntax::exprs(u, p) == syntax::exprs(t, p),
    decreases syntax::left(t, p), 2nat,
{
    soundness::lemma_exprs(t, p);
    if !syntax::at_close(t, p) {
        soundness::lemma_expr(t, p);
        let q = syntax::expr(t, p)->Ok_0.1;
        soundness::lemma_exprs(t, q);
        local_expr(t, u, n, p);
        local_exprs(t, u, n, q);
    }
}

proof fn local_list_expr(t: Seq<SpannedView>, u: Seq<SpannedView>, n: int, p: int)
    requires
        agree(t, u, n),
        0 <= p < t.len(),
        syntax::list_expr(t, p) matches Ok((_, q)) && q <= n,
    ensures
        syntax::list_expr(u, p) == syntax::list_expr(t, p),
    decreases syntax::left(t, p), 5nat,
{
    soundness::lemma_list_expr(t, p);
    if !(syntax::tok(t, p) is RightParen) {
        match syntax::form_at(t, p) {
            Some(form) => local_special_form(t, u, n, p + 1, form),
            None => local_application(t, u, n, p),
        }
    }
}

proof fn local_application(t: Seq<SpannedView>, u: Seq<SpannedView>, n: int, p: int)
    requires
        agree(t, u, n),
        0 <= p < t.len(),
        syntax::application(t, p) matches Ok((_, q)) && q <= n,
    ensures
        syntax::application(u, p) == syntax::application(t, p),
    decreases syntax::left(t, p), 4nat,
{
    soundness::lemma_application(t, p);
    soundness::lemma_expr(t, p);
    let q = syntax::expr(t, p)->Ok_0.1;
    soundness::lemma_exprs(t, q);
    local_expr(t, u, n, p);
    local_exprs(t, u, n, q);
}

proof fn local_special_form(t: Seq<SpannedView>, u: Seq<SpannedView>, n: int, p: int, form: Form)
    requires
        agree(t, u, n),
        0 <= p < t.len(),
        syntax::special_form(t, p, form) matches Ok((_, q)) && q <= n,
    ensures
        syntax::special_form(u, p, form) == syntax::special_form(t, p, form),
    decreases syntax::left(t, p), 6nat,
{
    soundness::lemma_special_form(t, p, form);
    match form {
        Form::Quote => local_datum(t, u, n, p),
        Form::Lambda => local_lambda(t, u, n, p),
        Form::If => local_if_form(t, u, n, p),
        Form::SetBang => local_set_form(t, u, n, p),
        Form::Cond => local_cond_clauses(t, u, n, p),
        Form::Case => local_case_form(t, u, n, p),
        Form::When | Form::Unless => local_tested_body(t, u, n, p),
        Form::And | Form::Or | Form::Begin => local_exprs(t, u, n, p),
        Form::Let => local_let_form(t, u, n, p),
        Form::LetStar => local_binding_form(t, u, n, p, "expected ) to close let*"@),
        Form::LetRec => local_binding_form(t, u, n, p, "expected ) to close letrec"@),
        Form::LetRecStar => local_binding_form(t, u, n, p, "expected ) to close letrec*"@),
        Form::LetValues | Form::LetStarValues => local_mv_binding_form(t, u, n, p),
    }
}

proof fn local_lambda(t: Seq<SpannedView>, u: Seq<SpannedView>, n: int, p: int)
    requires
        agree(t, u, n),
        0 <= p < t.len(),
        syntax::lambda(t, p) matches Ok((_, q)) && q <= n,
    ensures
        syntax::lambda(u, p) == syntax::lambda(t, p),
    decreases syntax::left(t, p), 4nat,
{
    soundness::lemma_lambda(t, p);
    soundness::lemma_formals(t, p);
    let q = syntax::formals(t, p)->Ok_0.1;
    soundness::lemma_body(t, q);
    local_formals(t, u, n, p);
    local_body(t, u, n, q);
}

proof fn local_if_form(t: Seq<SpannedView>, u: Seq<SpannedView>, n: int, p: int)
    requires
        agree(t, u, n),
        0 <= p < t.len(),
        syntax::if_form(t, p) matches Ok((_, q)) && q <= n,
    ensures
        syntax::if_form(u, p) == syntax::if_form(t, p),
    decreases syntax::left(t, p), 4nat,
{
    soundness::lemma_if_form(t, p);
    soundness::lemma_expr(t, p);
    let q = syntax::expr(t, p)->Ok_0.1;
    soundness::lemma_expr(t, q);
    let r = syntax::expr(t, q)->Ok_0.1;
    soundness::lemma_expr(t, r);
    local_expr(t, u, n, p);
    local_expr(t, u, n, q);
    if !(syntax::tok(t, r) is RightParen) {
        local_expr(t, u, n, r);
    }
}

proof fn local_set_form(t: Seq<SpannedView>, u: Seq<SpannedView>, n: int, p: int)
    requires
        agree(t, u, n),
        0 <= p < t.len(),
        syntax::set_form(t, p) matches Ok((_, q)) && q <= n,
    ensures
        syntax::set_form(u, p) == syntax::set_form(t, p),
    decreases syntax::left(t, p), 4nat,
{
    soundness::lemma_set_form(t, p);
    local_expr(t, u, n, p + 1);
}

proof fn local_cond_clauses(t: Seq<SpannedView>, u: Seq<SpannedView>, n: int, p: int)
    requires
        agree(t, u, n),
        0 <= p < t.len(),
        syntax::cond_clauses(t, p) matches Ok((_, q)) && q < n,
    ensures
        syntax::cond_clauses(u, p) == syntax::cond_clauses(t, p),
    decreases syntax::left(t, p), 4nat,
{
    soundness::lemma_cond_clauses(t, p);
    if !syntax::at_close(t, p) {
        soundness::lemma_cond_clause(t, p);
        let q = syntax::cond_clause(t, p)->Ok_0.1;
        soundness::lemma_cond_clauses(t, q);
        local_cond_clause(t, u, n, p);
        local_cond_clauses(t, u, n, q);
    }
}

proof fn local_cond_clause(t: Seq<SpannedView>, u: Seq<SpannedView>, n: int, p: int)
    requires
        agree(t, u, n),
        0 <= p < t.len(),
        syntax::cond_clause(t, p) matches Ok((_, q)) && q <= n,
    ensures
        syntax::cond_clause(u, p) == syntax::cond_clause(t, p),
    decreases syntax::left(t, p), 3nat,
{
    soundness::lemma_cond_clause(t, p);
    if syntax::is_symbol(t, p + 1, "else"@) {
        soundness::lemma_exprs(t, p + 2);
        local_exprs(t, u, n, p + 2);
    } else {
        soundness::lemma_expr(t, p + 1);
        let q = syntax::expr(t, p + 1)->Ok_0.1;
        if syntax::is_symbol(t, q, "=>"@) {
            soundness::lemma_expr(t, q + 1);
            local_expr(t, u, n, p + 1);
            local_expr(t, u, n, q + 1);
        } else {
            soundness::lemma_exprs(t, q);
            local_expr(t, u, n, p + 1);
            local_exprs(t, u, n, q);
        }
    }
}

proof fn local_case_form(t: Seq<SpannedView>, u: Seq<SpannedView>, n: int, p: int)
    requires
        agree(t, u, n),
        0 <= p < t.len(),
        syntax::case_form(t, p) matches Ok((_, q)) && q <= n,
    ensures
        syntax::case_form(u, p) == syntax::case_form(t, p),
    decreases syntax::left(t, p), 5nat,
{
    soundness::lemma_case_form(t, p);
    soundness::lemma_expr(t, p);
    let q = syntax::expr(t, p)->Ok_0.1;
    soundness::lemma_case_clauses(t, q);
    local_expr(t, u, n, p);
    local_case_clauses(t, u, n, q);
}

proof fn local_case_clauses(t: Seq<SpannedView>, u: Seq<SpannedView>, n: int, p: int)
    requires
        agree(t, u, n),
        0 <= p < t.len(),
        syntax::case_clauses(t, p) matches Ok((_, q)) && q < n,
    ensures
        syntax::case_clauses(u, p) == syntax::case_clauses(t, p),
    decreases syntax::left(t, p), 4nat,
{
    soundness::lemma_case_clauses(t, p);
    if !syntax::at_close(t, p) {
        soundness::lemma_case_clause(t, p);
        let q = syntax::case_clause(t, p)->Ok_0.1;
        soundness::lemma_case_clauses(t, q);
        local_case_clause(t, u, n, p);
        local_case_clauses(t, u, n, q);
    }
}

proof fn local_case_clause(t: Seq<SpannedView>, u: Seq<SpannedView>, n: int, p: int)
    requires
        agree(t, u, n),
        0 <= p < t.len(),
        syntax::case_clause(t, p) matches Ok((_, q)) && q <= n,
    ensures
        syntax::case_clause(u, p) == syntax::case_clause(t, p),
    decreases syntax::left(t, p), 3nat,
{
    soundness::lemma_case_clause(t, p);
    if syntax::is_symbol(t, p + 1, "else"@) {
        soundness::lemma_exprs(t, p + 2);
        local_exprs(t, u, n, p + 2);
    } else {
        soundness::lemma_data(t, p + 2);
        let q = syntax::data(t, p + 2)->Ok_0.1;
        soundness::lemma_exprs(t, q + 1);
        local_data(t, u, n, p + 2);
        local_exprs(t, u, n, q + 1);
    }
}

proof fn local_tested_body(t: Seq<SpannedView>, u: Seq<SpannedView>, n: int, p: int)
    requires
        agree(t, u, n),
        0 <= p < t.len(),
        syntax::tested_body(t, p) matches Ok((_, q)) && q <= n,
    ensures
        syntax::tested_body(u, p) == syntax::tested_body(t, p),
    decreases syntax::left(t, p), 4nat,
{
    soundness::lemma_tested_body(t, p);
    soundness::lemma_expr(t, p);
    let q = syntax::expr(t, p)->Ok_0.1;
    soundness::lemma_exprs(t, q);
    local_expr(t, u, n, p);
    local_exprs(t, u, n, q);
}

proof fn local_let_form(t: Seq<SpannedView>, u: Seq<SpannedView>, n: int, p: int)
    requires
        agree(t, u, n),
        0 <= p < t.len(),
        syntax::let_form(t, p) matches Ok((_, q)) && q <= n,
    ensures
        syntax::let_form(u, p) == syntax::let_form(t, p),
    decreases syntax::left(t, p), 5nat,
{
    soundness::lemma_let_form(t, p);
    if syntax::let_name(t, p) is Some {
        local_binding_form(t, u, n, p + 1, "expected ) to close let"@);
    } else {
        local_binding_form(t, u, n, p, "expected ) to close let"@);
    }
}

proof fn local_binding_form(
    t: Seq<SpannedView>,
    u: Seq<SpannedView>,
    n: int,
    p: int,
    message: Seq<char>,
)
    requires
        agree(t, u, n),
        0 <= p < t.len(),
        syntax::binding_form(t, p, message) matches Ok((_, q)) && q <= n,
    ensures
        syntax::binding_form(u, p, message) == syntax::binding_form(t, p, message),
    decreases syntax::left(t, p), 4nat,
{
    soundness::lemma_binding_form(t, p, message);
    soundness::lemma_bindings(t, p);
    let q = syntax::bindings(t, p)->Ok_0.1;
    soundness::lemma_body(t, q);
    local_bindings(t, u, n, p);
    local_body(t, u, n, q);
}

proof fn local_bindings(t: Seq<SpannedView>, u: Seq<SpannedView>, n: int, p: int)
    requires
        agree(t, u, n),
        0 <= p < t.len(),
        syntax::bindings(t, p) matches Ok((_, q)) && q <= n,
    ensures
        syntax::bindings(u, p) == syntax::bindings(t, p),
    decreases syntax::left(t, p), 3nat,
{
    soundness::lemma_bindings(t, p);
    local_binding_items(t, u, n, p + 1);
}

proof fn local_binding_items(t: Seq<SpannedView>, u: Seq<SpannedView>, n: int, p: int)
    requires
        agree(t, u, n),
        0 <= p < t.len(),
        syntax::binding_items(t, p) matches Ok((_, q)) && q < n,
    ensures
        syntax::binding_items(u, p) == syntax::binding_items(t, p),
    decreases syntax::left(t, p), 3nat,
{
    soundness::lemma_binding_items(t, p);
    if !syntax::at_close(t, p) {
        soundness::lemma_binding(t, p);
        let q = syntax::binding(t, p)->Ok_0.1;
        soundness::lemma_binding_items(t, q);
        local_binding(t, u, n, p);
        local_binding_items(t, u, n, q);
    }
}

proof fn local_binding(t: Seq<SpannedView>, u: Seq<SpannedView>, n: int, p: int)
    requires
        agree(t, u, n),
        0 <= p < t.len(),
        syntax::binding(t, p) matches Ok((_, q)) && q <= n,
    ensures
        syntax::binding(u, p) == syntax::binding(t, p),
    decreases syntax::left(t, p), 2nat,
{
    soundness::lemma_binding(t, p);
    local_expr(t, u, n, p + 2);
}

proof fn local_mv_binding_form(t: Seq<SpannedView>, u: Seq<SpannedView>, n: int, p: int)
    requires
        agree(t, u, n),
        0 <= p < t.len(),
        syntax::mv_binding_form(t, p) matches Ok((_, q)) && q <= n,
    ensures
        syntax::mv_binding_form(u, p) == syntax::mv_binding_form(t, p),
    decreases syntax::left(t, p), 4nat,
{
    soundness::lemma_mv_binding_form(t, p);
    soundness::lemma_mv_bindings(t, p);
    let q = syntax::mv_bindings(t, p)->Ok_0.1;
    soundness::lemma_body(t, q);
    local_mv_bindings(t, u, n, p);
    local_body(t, u, n, q);
}

proof fn local_mv_bindings(t: Seq<SpannedView>, u: Seq<SpannedView>, n: int, p: int)
    requires
        agree(t, u, n),
        0 <= p < t.len(),
        syntax::mv_bindings(t, p) matches Ok((_, q)) && q <= n,
    ensures
        syntax::mv_bindings(u, p) == syntax::mv_bindings(t, p),
    decreases syntax::left(t, p), 3nat,
{
    soundness::lemma_mv_bindings(t, p);
    local_mv_binding_items(t, u, n, p + 1);
}

proof fn local_mv_binding_items(t: Seq<SpannedView>, u: Seq<SpannedView>, n: int, p: int)
    requires
        agree(t, u, n),
        0 <= p < t.len(),
        syntax::mv_binding_items(t, p) matches Ok((_, q)) && q < n,
    ensures
        syntax::mv_binding_items(u, p) == syntax::mv_binding_items(t, p),
    decreases syntax::left(t, p), 3nat,
{
    soundness::lemma_mv_binding_items(t, p);
    if !syntax::at_close(t, p) {
        soundness::lemma_mv_binding(t, p);
        let q = syntax::mv_binding(t, p)->Ok_0.1;
        soundness::lemma_mv_binding_items(t, q);
        local_mv_binding(t, u, n, p);
        local_mv_binding_items(t, u, n, q);
    }
}

proof fn local_mv_binding(t: Seq<SpannedView>, u: Seq<SpannedView>, n: int, p: int)
    requires
        agree(t, u, n),
        0 <= p < t.len(),
        syntax::mv_binding(t, p) matches Ok((_, q)) && q <= n,
    ensures
        syntax::mv_binding(u, p) == syntax::mv_binding(t, p),
    decreases syntax::left(t, p), 2nat,
{
    soundness::lemma_mv_binding(t, p);
    soundness::lemma_formals(t, p + 1);
    let q = syntax::formals(t, p + 1)->Ok_0.1;
    soundness::lemma_expr(t, q);
    local_formals(t, u, n, p + 1);
    local_expr(t, u, n, q);
}

proof fn local_body(t: Seq<SpannedView>, u: Seq<SpannedView>, n: int, p: int)
    requires
        agree(t, u, n),
        0 <= p < t.len(),
        syntax::body(t, p) matches Ok((_, q)) && q < n,
    ensures
        syntax::body(u, p) == syntax::body(t, p),
    decreases syntax::left(t, p), 3nat,
{
    soundness::lemma_body(t, p);
    soundness::lemma_definitions(t, p);
    let q = syntax::definitions(t, p)->Ok_0.1;
    soundness::lemma_body_exprs(t, q);
    if syntax::tok(t, q) is LeftParen {
        soundness::lemma_expr(t, q);
        soundness::lemma_list_expr(t, q + 1);
        soundness::lemma_body_exprs(t, syntax::expr(t, q)->Ok_0.1);
    }
    local_definitions(t, u, n, p);
    local_body_exprs(t, u, n, q);
}

proof fn local_definitions(t: Seq<SpannedView>, u: Seq<SpannedView>, n: int, p: int)
    requires
        agree(t, u, n),
        0 <= p < t.len(),
        syntax::definitions(t, p) matches Ok((_, q)) && q < n,
        syntax::definitions(t, p) matches Ok((_, q)) && (syntax::tok(t, q) is LeftParen ==>
            q + 1 < n),
    ensures
        syntax::definitions(u, p) == syntax::definitions(t, p),
    decreases syntax::left(t, p), 2nat,
{
    soundness::lemma_definitions(t, p);
    if syntax::tok(t, p) is DatumComment {
        soundness::lemma_datum(t, p + 1);
        let q = syntax::datum(t, p + 1)->Ok_0.1;
        soundness::lemma_definitions(t, q);
        local_datum(t, u, n, p + 1);
        local_definitions(t, u, n, q);
    } else if syntax::at_definition(t, p) {
        soundness::lemma_definition(t, p + 1);
        let q = syntax::definition(t, p + 1)->Ok_0.1;
        soundness::lemma_definitions(t, q + 1);
        local_definition(t, u, n, p + 1);
        local_definitions(t, u, n, q + 1);
    }
}

proof fn local_body_exprs(t: Seq<SpannedView>, u: Seq<SpannedView>, n: int, p: int)
    requires
        agree(t, u, n),
        0 <= p < t.len(),
        syntax::body_exprs(t, p) matches Ok((_, q)) && q < n,
    ensures
        syntax::body_exprs(u, p) == syntax::body_exprs(t, p),
    decreases syntax::left(t, p), 2nat,
{
    soundness::lemma_body_exprs(t, p);
    if syntax::at_close(t, p) {
    } else if syntax::tok(t, p) is DatumComment {
        soundness::lemma_datum(t, p + 1);
        let q = syntax::datum(t, p + 1)->Ok_0.1;
        soundness::lemma_body_exprs(t, q);
        local_datum(t, u, n, p + 1);
        local_body_exprs(t, u, n, q);
    } else {
        soundness::lemma_expr(t, p);
        let q = syntax::expr(t, p)->Ok_0.1;
        soundness::lemma_body_exprs(t, q);
        local_expr(t, u, n, p);
        local_body_exprs(t, u, n, q);
    }
}

proof fn local_definition(t: Seq<SpannedView>, u: Seq<SpannedView>, n: int, p: int)
    requires
        agree(t, u, n),
        0 <= p < t.len(),
        syntax::definition(t, p) matches Ok((_, q)) && q < n,
    ensures
        syntax::definition(u, p) == syntax::definition(t, p),
    decreases syntax::left(t, p), 5nat,
{
    soundness::lemma_definition(t, p);
    if syntax::is_symbol(t, p, "define"@) {
        local_define_rest(t, u, n, p + 1);
    } else {
        local_expr(t, u, n, p + 2);
    }
}

proof fn local_define_rest(t: Seq<SpannedView>, u: Seq<SpannedView>, n: int, p: int)
    requires
        agree(t, u, n),
        0 <= p < t.len(),
        syntax::define_rest(t, p) matches Ok((_, q)) && q < n,
    ensures
        syntax::define_rest(u, p) == syntax::define_rest(t, p),
    decreases syntax::left(t, p), 4nat,
{
    soundness::lemma_define_rest(t, p);
    if syntax::tok(t, p) is LeftParen {
        soundness::lemma_formals_rest(t, p + 2);
        let q = syntax::formals_rest(t, p + 2)->Ok_0.1;
        soundness::lemma_body(t, q + 1);
        local_formals_rest(t, u, n, p + 2);
        local_body(t, u, n, q + 1);
    } else if !syntax::at_close(t, p + 1) {
        soundness::lemma_expr(t, p + 1);
        local_expr(t, u, n, p + 1);
    }
}

proof fn local_top_form(t: Seq<SpannedView>, u: Seq<SpannedView>, n: int, p: int)
    requires
        agree(t, u, n),
        0 <= p < t.len(),
        syntax::top_form(t, p) matches Ok((_, q)) && q <= n,
    ensures
        syntax::top_form(u, p) == syntax::top_form(t, p),
    decreases syntax::left(t, p), 1nat,
{
    soundness::lemma_top_form(t, p);
    if syntax::tok(t, p) is DatumComment {
        soundness::lemma_datum(t, p + 1);
        let q = syntax::datum(t, p + 1)->Ok_0.1;
        soundness::lemma_top_form(t, q);
        local_datum(t, u, n, p + 1);
        local_top_form(t, u, n, q);
    } else if syntax::at_definition(t, p) {
        soundness::lemma_definition(t, p + 1);
        local_definition(t, u, n, p + 1);
    } else if syntax::tok(t, p) is LeftParen && syntax::is_symbol(t, p + 1, "begin"@) {
        soundness::lemma_top_forms(t, p + 2);
        local_top_forms(t, u, n, p + 2);
    } else {
        if syntax::tok(t, p) is LeftParen {
            soundness::lemma_list_expr(t, p + 1);
        }
        local_expr(t, u, n, p);
    }
}

proof fn local_top_forms(t: Seq<SpannedView>, u: Seq<SpannedView>, n: int, p: int)
    requires
        agree(t, u, n),
        0 <= p < t.len(),
        syntax::top_forms(t, p) matches Ok((_, q)) && q < n,
    ensures
        syntax::top_forms(u, p) == syntax::top_forms(t, p),
    decreases syntax::left(t, p), 2nat,
{
    soundness::lemma_top_forms(t, p);
    if !syntax::at_close(t, p) {
        soundness::lemma_top_form(t, p);
        let q = syntax::top_form(t, p)->Ok_0.1;
        soundness::lemma_top_forms(t, q);
        local_top_form(t, u, n, p);
        local_top_forms(t, u, n, q);
    }
}

/// A datum, an expression or a top-level form that ends before `n` means the
/// same whatever stands from `n` on.
pub proof fn law_phrases_are_local(
    t: Seq<SpannedView>,
    u: Seq<SpannedView>,
    n: int,
    p: int,
)
    requires
        agree(t, u, n),
        0 <= p < t.len(),
    ensures
        syntax::datum(t, p) matches Ok((_, q)) && q <= n ==> syntax::datum(u, p) == syntax::datum(
            t,
            p,
        ),
        syntax::expr(t, p) matches Ok((_, q)) && q <= n ==> syntax::expr(u, p) == syntax::expr(
            t,
            p,
        ),
        syntax::top_form(t, p) matches Ok((_, q)) && q <= n ==> syntax::top_form(u, p)
            == syntax::top_form(t, p),
{
    if let Ok((_, q)) = syntax::datum(t, p) {
        if q <= n {
            local_datum(t, u, n, p);
        }
    }
    if let Ok((_, q)) = syntax::expr(t, p) {
        if q <= n {
            local_expr(t, u, n, p);
        }
    }
    if let Ok((_, q)) = syntax::top_form(t, p) {
        if q <= n {
            local_top_form(t, u, n, p);
        }
    }
}

/// Where tokens are read whole as a datum, a mark of quotation before them and
/// the list of its name and them are read whole as one and the same datum.
pub proof fn law_quotation_marks_abbreviate(
    tokens: Seq<SpannedView>,
    end: SpannedView,
    mark: SpannedView,
    open: SpannedView,
    head: SpannedView,
    close: SpannedView,
    name: Seq<char>,
    d: DatumView,
)
    requires
        end.token is Eof,
        laws::abbreviated(mark.token) == Some(name),
        open.token is LeftParen,
        head.token == TokenView::Symbol(name),
        close.token is RightParen,
        syntax::datum(tokens.push(end), 0) == Ok::<_, ErrorView>((d, tokens.len() as int)),
    ensures
        syntax::datum(seq![mark] + tokens.push(end), 0) == Ok::<_, ErrorView>(
            (laws::pair_of(name, d), (tokens.len() + 1) as int),
        ),
        syntax::datum(seq![open, head] + tokens.push(close).push(end), 0) == Ok::<_, ErrorView>(
            (laws::pair_of(name, d), (tokens.len() + 3) as int),
        ),
{
    let n = tokens.len() as int;
    let t = tokens.push(end);
    let closed = tokens.push(close).push(end);
    let marked = seq![mark] + t;
    let listed = seq![open, head] + closed;
    assert forall|p: int| 0 <= p < n implies (#[trigger] syntax::tok(t, p)) == syntax::tok(
        closed,
        p,
    ) by {}
    local_datum(t, closed, n, 0);
    assert(marked.subrange(1, marked.len() as int) =~= t);
    layout::lemma_tail(marked, 1);
    layout::same_datum(t, marked, 1, 0, 1);
    assert(listed.subrange(2, listed.len() as int) =~= closed);
    layout::lemma_tail(listed, 2);
    layout::same_datum(closed, listed, 2, 0, 2);
    laws::law_quotation_marks_in_data(marked, 0, listed, 0, name, d, n + 1, n + 2);
}

/// Forms that end at `n` are followed by those that begin there.
proof fn lemma_forms_before(
    t: Seq<SpannedView>,
    u: Seq<SpannedView>,
    p: int,
    forms: Seq<TopLevelFormView>,
)
    requires
        agree(t, u, t.len() - 1),
        forall|k: int| 0 <= k < t.len() - 1 ==> !((#[trigger] t[k]).token is Eof),
        0 <= p < t.len(),
        syntax::program_from(t, p) matches Ok((v, _)) && v == forms,
    ensures
        syntax::program_from(u, p) == syntax::prepend(
            forms,
            syntax::program_from(u, t.len() - 1),
        ),
    decreases syntax::left(t, p),
{
    let n = t.len() - 1;
    if p == n {
        syntax::lemma_prepend_nothing(syntax::program_from(u, n));
    } else {
        assert(!(t[p].token is Eof));
        soundness::lemma_top_form(t, p);
        let (first, q) = syntax::top_form(t, p)->Ok_0;
        local_top_form(t, u, n, p);
        soundness::lemma_program_from(t, q);
        let (others, end) = syntax::program_from(t, q)->Ok_0;
        lemma_forms_before(t, u, q, others);
        if let Ok((rest, z)) = syntax::program_from(u, n) {
            assert(seq![first] + (others + rest) =~= (seq![first] + others) + rest);
        }
    }
}

/// The program of two sources with a new line between them is that of the
/// first and behind it that of the second, where the first is a program. An
/// error in the second is the error of both, but for its position.
pub proof fn law_programs_in_sequence(
    a: Seq<u8>,
    b: Seq<u8>,
    forms: Seq<TopLevelFormView>,
)
    requires
        syntax::program(a) == Ok::<_, ErrorView>(forms),
    ensures
        match syntax::program(b) {
            Ok(others) => syntax::program(a + seq![NEWLINE] + b) == Ok::<_, ErrorView>(
                forms + others,
            ),
            Err(e) => syntax::program(a + seq![NEWLINE] + b) matches Err(f) && f.message
                == e.message,
        },
{
    let r = seq![NEWLINE] + b;
    let c = a + seq![NEWLINE] + b;
    assert(c =~= a + r);
    surroundings::lemma_tokens_before(a, r, 0);
    laws::law_whitespace_is_skipped(seq![NEWLINE], b);
    laws::law_single_trailing_eof(a);
    laws::law_single_trailing_eof(b);
    let t = lexical::tokens(a)->Ok_0;
    if let Ok(s) = lexical::tokens(b) {
        let u = lexical::tokens(c)->Ok_0;
        let x = t.drop_last() + s;
        assert(surroundings::tokens_of(x) =~= surroundings::tokens_of(t).drop_last()
            + surroundings::tokens_of(s));
        layout::lemma_uncommented_alike(x, u);
        lemma_meaning_in_sequence(t, s, syntax::uncommented(u), forms);
    }
}

/// Where a program is read from tokens, no datum comment is left in these.
proof fn lemma_no_comment_left(t: Seq<SpannedView>)
    requires
        soundness::ends(t),
        comments::settled(t),
        forall|k: int| 0 <= k < t.len() - 1 ==> !((#[trigger] t[k]).token is Eof),
        syntax::program_from(t, 0) is Ok,
    ensures
        forall|k: int| 0 <= k < t.len() ==> !((#[trigger] t[k]).token is DatumComment),
{
    let q = syntax::program_from(t, 0)->Ok_0.1;
    soundness::lemma_program_from(t, 0);
    soundness::lemma_program_end(t, 0);
    balance::neat_program_from(t, 0);
    reveal(balance::neat);
    assert(t[q].token is Eof);
    assert forall|k: int| 0 <= k < t.len() implies !((#[trigger] t[k]).token is DatumComment) by {
        assert(!(syntax::tok(t, k) is DatumComment));
    }
}

/// Tokens whose datum comments are all complete, with more behind them: what is
/// left is what is left of both.
proof fn lemma_uncommented_in_sequence(t: Seq<SpannedView>, s: Seq<SpannedView>)
    requires
        soundness::ends(t),
        soundness::ends(s),
        forall|k: int|
            0 <= k < syntax::uncommented(t).len() ==> !((
            #[trigger] syntax::uncommented(t)[k]).token is DatumComment),
    ensures
        syntax::uncommented(t.drop_last() + s) == syntax::uncommented(t).drop_last()
            + syntax::uncommented(s),
    decreases t.len(),
{
    let u = syntax::uncommented(t);
    let v = syntax::uncommented(s);
    if t.len() == 1 {
        comments::lemma_end_only(t);
        assert(t.drop_last() + s =~= s);
        assert(u.drop_last() + v =~= v);
    } else {
        let first = t[0];
        let others = t.subrange(1, t.len() as int);
        let rest = syntax::uncommented(others);
        comments::lemma_uncommented_ends(others);
        comments::lemma_uncommented_settled(others);
        soundness::lemma_datum(rest, 0);
        balance::neat_datum(rest, 0);
        assert forall|k: int| 0 <= k < rest.len() implies !((
        #[trigger] rest[k]).token is DatumComment) by {
            if first.token is DatumComment && syntax::datum(rest, 0) is Ok {
                let q = syntax::datum(rest, 0)->Ok_0.1;
                reveal(balance::neat);
                assert(!(syntax::tok(rest, k) is DatumComment) || k >= q);
                if k >= q {
                    assert(u[k - q] == rest[k]);
                }
            } else {
                assert(u[k + 1] == rest[k]);
            }
        }
        lemma_uncommented_in_sequence(others, s);
        let a = t.drop_last() + s;
        assert(a.subrange(1, a.len() as int) =~= others.drop_last() + s);
        let both = rest.drop_last() + v;
        assert(syntax::uncommented(a.subrange(1, a.len() as int)) == both);
        if first.token is DatumComment {
            assert(u[0] == first || syntax::datum(rest, 0) is Ok);
            let q = syntax::datum(rest, 0)->Ok_0.1;
            let n = rest.len() - 1;
            assert forall|p: int| 0 <= p < n implies (#[trigger] syntax::tok(rest, p))
                == syntax::tok(both, p) by {
                assert(both[p] == rest[p]);
            }
            local_datum(rest, both, n, 0);
            assert(both.subrange(q, both.len() as int) =~= rest.subrange(
                q,
                rest.len() as int,
            ).drop_last() + v);
        } else {
            assert(seq![first] + both =~= (seq![first] + rest).drop_last() + v);
        }
    }
}

/// Tokens of a program, and behind them other tokens: the forms of the program,
/// and behind them what is read from the others.
proof fn lemma_meaning_in_sequence(
    t: Seq<SpannedView>,
    s: Seq<SpannedView>,
    u: Seq<SpannedView>,
    forms: Seq<TopLevelFormView>,
)
    requires
        soundness::ends(t),
        soundness::ends(s),
        forall|k: int| 0 <= k < t.len() - 1 ==> !((#[trigger] t[k]).token is Eof),
        surroundings::tokens_of(u) == surroundings::tokens_of(
            syntax::uncommented(t.drop_last() + s),
        ),
        syntax::program_from(syntax::uncommented(t), 0) matches Ok((v, _)) && v == forms,
    ensures
        match syntax::program_from(syntax::uncommented(s), 0) {
            Ok((others, _)) => syntax::program_from(u, 0) matches Ok((v, _)) && v == forms
                + others,
            Err(e) => syntax::program_from(u, 0) matches Err(f) && f.message == e.message,
        },
{
    let x = syntax::uncommented(t);
    let y = syntax::uncommented(s);
    let n = x.len() - 1;
    comments::lemma_uncommented_ends(t);
    comments::lemma_uncommented_settled(t);
    comments::lemma_early_eof(t);
    lemma_no_comment_left(x);
    lemma_uncommented_in_sequence(t, s);
    let z = x.drop_last() + y;
    assert(surroundings::tokens_of(u).len() == u.len());
    assert(surroundings::tokens_of(z).len() == z.len());
    assert forall|p: int| 0 <= p < n implies (#[trigger] syntax::tok(x, p)) == syntax::tok(
        u,
        p,
    ) by {
        assert(surroundings::tokens_of(u)[p] == surroundings::tokens_of(z)[p]);
    }
    assert forall|p: int, q: int|
        #![trigger syntax::tok(y, p), syntax::tok(u, q)]
        0 <= p && q == p + n implies syntax::tok(y, p) == syntax::tok(u, q) by {
        if p < y.len() {
            assert(surroundings::tokens_of(u)[q] == surroundings::tokens_of(z)[q]);
        }
    }
    lemma_forms_before(x, u, 0, forms);
    layout::same_program_from(y, u, n, 0, n);
}

} // verus!
