//! What a phrase means depends on its tokens alone: not on their positions in
//! the source, nor on what stands before it.

use crate::comments;
use crate::laws;
use crate::lexical;
use crate::lexical::{ErrorView, SpannedView, TokenView};
use crate::soundness;
use crate::surroundings;
use crate::syntax;
use crate::syntax::{Form, Parsed};
use vstd::prelude::*;

verus! {

/// Whether a reading is another one `n` tokens further on, the positions of
/// errors aside.
pub open spec fn same<T>(n: int, a: Parsed<T>, b: Parsed<T>) -> bool {
    match (a, b) {
        (Ok((x, q)), Ok((y, s))) => x == y && s == q + n && q >= 0,
        (Err(e), Err(f)) => e.message == f.message,
        _ => false,
    }
}

/// Whether the tokens `t` are those of `u` from the index `n` on.
pub open spec fn tail_of(t: Seq<SpannedView>, u: Seq<SpannedView>, n: int) -> bool {
    &&& 0 <= n
    &&& u.len() == t.len() + n
    &&& forall|p: int, r: int|
        #![trigger syntax::tok(t, p), syntax::tok(u, r)]
        0 <= p && r == p + n ==> syntax::tok(t, p) == syntax::tok(u, r)
}

/// A datum reads the same wherever its tokens begin.
pub proof fn same_datum(t: Seq<SpannedView>, u: Seq<SpannedView>, n: int, p: int, r: int)
    requires
        tail_of(t, u, n),
        0 <= p,
        r == p + n,
    ensures
        same(n, syntax::datum(t, p), syntax::datum(u, r)),
    decreases syntax::left(t, p), 1nat,
{
    match syntax::tok(t, p) {
        TokenView::DatumComment => {
            same_datum(t, u, n, p + 1, r + 1);
            if let (Ok((_, q)), Ok((_, s))) = (syntax::datum(t, p + 1), syntax::datum(u, r + 1)) {
                if q > p {
                    same_datum(t, u, n, q, s);
                }
            }
        },
        TokenView::Quote
        | TokenView::QuasiQuote
        | TokenView::Unquote
        | TokenView::UnquoteSplicing => same_datum(t, u, n, p + 1, r + 1),
        TokenView::VectorPrefix => same_data(t, u, n, p + 1, r + 1),
        TokenView::ByteVectorPrefix => same_octets(t, u, n, p + 1, r + 1),
        TokenView::LeftParen => same_list_rest(t, u, n, p + 1, r + 1),
        _ => {},
    }
}

proof fn same_data(t: Seq<SpannedView>, u: Seq<SpannedView>, n: int, p: int, r: int)
    requires
        tail_of(t, u, n),
        0 <= p,
        r == p + n,
    ensures
        same(n, syntax::data(t, p), syntax::data(u, r)),
    decreases syntax::left(t, p), 2nat,
{
    if !syntax::at_close(t, p) {
        same_datum(t, u, n, p, r);
        if let (Ok((_, q)), Ok((_, s))) = (syntax::datum(t, p), syntax::datum(u, r)) {
            if q > p {
                same_data(t, u, n, q, s);
            }
        }
    }
}

proof fn same_octets(t: Seq<SpannedView>, u: Seq<SpannedView>, n: int, p: int, r: int)
    requires
        tail_of(t, u, n),
        0 <= p,
        r == p + n,
    ensures
        same(n, syntax::octets(t, p), syntax::octets(u, r)),
    decreases syntax::left(t, p), 2nat,
{
    if !syntax::at_close(t, p) {
        same_datum(t, u, n, p, r);
        if let (Ok((_, q)), Ok((_, s))) = (syntax::datum(t, p), syntax::datum(u, r)) {
            if q > p {
                same_octets(t, u, n, q, s);
            }
        }
    }
}

proof fn same_list_rest(t: Seq<SpannedView>, u: Seq<SpannedView>, n: int, p: int, r: int)
    requires
        tail_of(t, u, n),
        0 <= p,
        r == p + n,
    ensures
        same(n, syntax::list_rest(t, p), syntax::list_rest(u, r)),
    decreases syntax::left(t, p), 2nat,
{
    if syntax::tok(t, p) is Dot {
        same_datum(t, u, n, p + 1, r + 1);
    } else if !syntax::at_close(t, p) {
        same_datum(t, u, n, p, r);
        if let (Ok((_, q)), Ok((_, s))) = (syntax::datum(t, p), syntax::datum(u, r)) {
            if q > p {
                same_list_rest(t, u, n, q, s);
            }
        }
    }
}

proof fn same_formals_rest(t: Seq<SpannedView>, u: Seq<SpannedView>, n: int, p: int, r: int)
    requires
        tail_of(t, u, n),
        0 <= p,
        r == p + n,
    ensures
        same(n, syntax::formals_rest(t, p), syntax::formals_rest(u, r)),
    decreases syntax::left(t, p),
{
    if syntax::tok(t, p) is Symbol {
        same_formals_rest(t, u, n, p + 1, r + 1);
    }
    if syntax::tok(t, p) is Dot {
        assert(syntax::tok(t, p + 1) == syntax::tok(u, r + 1));
    }
}

proof fn same_formals(t: Seq<SpannedView>, u: Seq<SpannedView>, n: int, p: int, r: int)
    requires
        tail_of(t, u, n),
        0 <= p,
        r == p + n,
    ensures
        same(n, syntax::formals(t, p), syntax::formals(u, r)),
{
    if syntax::tok(t, p) is LeftParen {
        same_formals_rest(t, u, n, p + 1, r + 1);
    }
}

proof fn same_expr(t: Seq<SpannedView>, u: Seq<SpannedView>, n: int, p: int, r: int)
    requires
        tail_of(t, u, n),
        0 <= p,
        r == p + n,
    ensures
        same(n, syntax::expr(t, p), syntax::expr(u, r)),
    decreases syntax::left(t, p), 1nat,
{
    match syntax::tok(t, p) {
        TokenView::DatumComment => {
            same_datum(t, u, n, p + 1, r + 1);
            if let (Ok((_, q)), Ok((_, s))) = (syntax::datum(t, p + 1), syntax::datum(u, r + 1)) {
                if q > p {
                    same_expr(t, u, n, q, s);
                }
            }
        },
        TokenView::Quote
        | TokenView::QuasiQuote
        | TokenView::Unquote
        | TokenView::UnquoteSplicing => same_datum(t, u, n, p + 1, r + 1),
        TokenView::VectorPrefix | TokenView::ByteVectorPrefix => same_datum(t, u, n, p, r),
        TokenView::LeftParen => same_list_expr(t, u, n, p + 1, r + 1),
        _ => {},
    }
}

proof fn same_exprs(t: Seq<SpannedView>, u: Seq<SpannedView>, n: int, p: int, r: int)
    requires
        tail_of(t, u, n),
        0 <= p,
        r == p + n,
    ensures
        same(n, syntax::exprs(t, p), syntax::exprs(u, r)),
    decreases syntax::left(t, p), 2nat,
{
    if !syntax::at_close(t, p) {
        same_expr(t, u, n, p, r);
        if let (Ok((_, q)), Ok((_, s))) = (syntax::expr(t, p), syntax::expr(u, r)) {
            if q > p {
                same_exprs(t, u, n, q, s);
            }
        }
    }
}

proof fn same_list_expr(t: Seq<SpannedView>, u: Seq<SpannedView>, n: int, p: int, r: int)
    requires
        tail_of(t, u, n),
        0 <= p,
        r == p + n,
    ensures
        same(n, syntax::list_expr(t, p), syntax::list_expr(u, r)),
    decreases syntax::left(t, p), 5nat,
{
    if !(syntax::tok(t, p) is RightParen) {
        match syntax::form_at(t, p) {
            Some(form) => same_special_form(t, u, n, p + 1, r + 1, form),
            None => same_application(t, u, n, p, r),
        }
    }
}

proof fn same_application(t: Seq<SpannedView>, u: Seq<SpannedView>, n: int, p: int, r: int)
    requires
        tail_of(t, u, n),
        0 <= p,
        r == p + n,
    ensures
        same(n, syntax::application(t, p), syntax::application(u, r)),
    decreases syntax::left(t, p), 4nat,
{
    same_expr(t, u, n, p, r);
    if let (Ok((_, q)), Ok((_, s))) = (syntax::expr(t, p), syntax::expr(u, r)) {
        if q > p {
            same_exprs(t, u, n, q, s);
        }
    }
}

proof fn same_special_form(
    t: Seq<SpannedView>,
    u: Seq<SpannedView>,
    n: int,
    p: int,
    r: int,
    form: Form,
)
    requires
        tail_of(t, u, n),
        0 <= p,
        r == p + n,
    ensures
        same(n, syntax::special_form(t, p, form), syntax::special_form(u, r, form)),
    decreases syntax::left(t, p), 6nat,
{
    match form {
        Form::Quote => same_datum(t, u, n, p, r),
        Form::Lambda => same_lambda(t, u, n, p, r),
        Form::If => same_if_form(t, u, n, p, r),
        Form::SetBang => same_set_form(t, u, n, p, r),
        Form::Cond => same_cond_clauses(t, u, n, p, r),
        Form::Case => same_case_form(t, u, n, p, r),
        Form::When | Form::Unless => same_tested_body(t, u, n, p, r),
        Form::And | Form::Or | Form::Begin => same_exprs(t, u, n, p, r),
        Form::Let => same_let_form(t, u, n, p, r),
        Form::LetStar => same_binding_form(t, u, n, p, r, "expected ) to close let*"@),
        Form::LetRec => same_binding_form(t, u, n, p, r, "expected ) to close letrec"@),
        Form::LetRecStar => same_binding_form(t, u, n, p, r, "expected ) to close letrec*"@),
        Form::LetValues | Form::LetStarValues => same_mv_binding_form(t, u, n, p, r),
    }
}

proof fn same_lambda(t: Seq<SpannedView>, u: Seq<SpannedView>, n: int, p: int, r: int)
    requires
        tail_of(t, u, n),
        0 <= p,
        r == p + n,
    ensures
        same(n, syntax::lambda(t, p), syntax::lambda(u, r)),
    decreases syntax::left(t, p), 4nat,
{
    same_formals(t, u, n, p, r);
    if let (Ok((_, q)), Ok((_, s))) = (syntax::formals(t, p), syntax::formals(u, r)) {
        if q > p {
            same_body(t, u, n, q, s);
        }
    }
}

proof fn same_if_form(t: Seq<SpannedView>, u: Seq<SpannedView>, n: int, p: int, r: int)
    requires
        tail_of(t, u, n),
        0 <= p,
        r == p + n,
    ensures
        same(n, syntax::if_form(t, p), syntax::if_form(u, r)),
    decreases syntax::left(t, p), 4nat,
{
    same_expr(t, u, n, p, r);
    if let (Ok((_, q)), Ok((_, s))) = (syntax::expr(t, p), syntax::expr(u, r)) {
        if q > p {
            same_expr(t, u, n, q, s);
            if let (Ok((_, x)), Ok((_, y))) = (syntax::expr(t, q), syntax::expr(u, s)) {
                if x > q {
                    same_expr(t, u, n, x, y);
                }
            }
        }
    }
}

proof fn same_set_form(t: Seq<SpannedView>, u: Seq<SpannedView>, n: int, p: int, r: int)
    requires
        tail_of(t, u, n),
        0 <= p,
        r == p + n,
    ensures
        same(n, syntax::set_form(t, p), syntax::set_form(u, r)),
    decreases syntax::left(t, p), 4nat,
{
    if syntax::tok(t, p) is Symbol {
        same_expr(t, u, n, p + 1, r + 1);
    }
}

proof fn same_cond_clauses(t: Seq<SpannedView>, u: Seq<SpannedView>, n: int, p: int, r: int)
    requires
        tail_of(t, u, n),
        0 <= p,
        r == p + n,
    ensures
        same(n, syntax::cond_clauses(t, p), syntax::cond_clauses(u, r)),
    decreases syntax::left(t, p), 4nat,
{
    if !syntax::at_close(t, p) {
        same_cond_clause(t, u, n, p, r);
        if let (Ok((_, q)), Ok((_, s))) = (syntax::cond_clause(t, p), syntax::cond_clause(u, r)) {
            if q > p {
                same_cond_clauses(t, u, n, q, s);
            }
        }
    }
}

proof fn same_cond_clause(t: Seq<SpannedView>, u: Seq<SpannedView>, n: int, p: int, r: int)
    requires
        tail_of(t, u, n),
        0 <= p,
        r == p + n,
    ensures
        same(n, syntax::cond_clause(t, p), syntax::cond_clause(u, r)),
    decreases syntax::left(t, p), 3nat,
{
    if syntax::tok(t, p) is LeftParen {
        if syntax::is_symbol(t, p + 1, "else"@) {
            same_exprs(t, u, n, p + 2, r + 2);
        } else {
            same_expr(t, u, n, p + 1, r + 1);
            if let (Ok((_, q)), Ok((_, s))) = (syntax::expr(t, p + 1), syntax::expr(u, r + 1)) {
                if q > p + 1 {
                    if syntax::is_symbol(t, q, "=>"@) {
                        same_expr(t, u, n, q + 1, s + 1);
                    } else {
                        same_exprs(t, u, n, q, s);
                    }
                }
            }
        }
    }
}

proof fn same_case_form(t: Seq<SpannedView>, u: Seq<SpannedView>, n: int, p: int, r: int)
    requires
        tail_of(t, u, n),
        0 <= p,
        r == p + n,
    ensures
        same(n, syntax::case_form(t, p), syntax::case_form(u, r)),
    decreases syntax::left(t, p), 5nat,
{
    same_expr(t, u, n, p, r);
    if let (Ok((_, q)), Ok((_, s))) = (syntax::expr(t, p), syntax::expr(u, r)) {
        if q > p {
            same_case_clauses(t, u, n, q, s);
        }
    }
}

proof fn same_case_clauses(t: Seq<SpannedView>, u: Seq<SpannedView>, n: int, p: int, r: int)
    requires
        tail_of(t, u, n),
        0 <= p,
        r == p + n,
    ensures
        same(n, syntax::case_clauses(t, p), syntax::case_clauses(u, r)),
    decreases syntax::left(t, p), 4nat,
{
    if !syntax::at_close(t, p) {
        same_case_clause(t, u, n, p, r);
        if let (Ok((_, q)), Ok((_, s))) = (syntax::case_clause(t, p), syntax::case_clause(u, r)) {
            if q > p {
                same_case_clauses(t, u, n, q, s);
            }
        }
    }
}

proof fn same_case_clause(t: Seq<SpannedView>, u: Seq<SpannedView>, n: int, p: int, r: int)
    requires
        tail_of(t, u, n),
        0 <= p,
        r == p + n,
    ensures
        same(n, syntax::case_clause(t, p), syntax::case_clause(u, r)),
    decreases syntax::left(t, p), 3nat,
{
    if syntax::tok(t, p) is LeftParen {
        if syntax::is_symbol(t, p + 1, "else"@) {
            same_exprs(t, u, n, p + 2, r + 2);
        } else if syntax::tok(t, p + 1) is LeftParen {
            same_data(t, u, n, p + 2, r + 2);
            if let (Ok((_, q)), Ok((_, s))) = (syntax::data(t, p + 2), syntax::data(u, r + 2)) {
                if q + 1 > p + 2 {
                    same_exprs(t, u, n, q + 1, s + 1);
                }
            }
        }
    }
}

proof fn same_tested_body(t: Seq<SpannedView>, u: Seq<SpannedView>, n: int, p: int, r: int)
    requires
        tail_of(t, u, n),
        0 <= p,
        r == p + n,
    ensures
        same(n, syntax::tested_body(t, p), syntax::tested_body(u, r)),
    decreases syntax::left(t, p), 4nat,
{
    same_expr(t, u, n, p, r);
    if let (Ok((_, q)), Ok((_, s))) = (syntax::expr(t, p), syntax::expr(u, r)) {
        if q > p {
            same_exprs(t, u, n, q, s);
        }
    }
}

proof fn same_let_form(t: Seq<SpannedView>, u: Seq<SpannedView>, n: int, p: int, r: int)
    requires
        tail_of(t, u, n),
        0 <= p,
        r == p + n,
    ensures
        same(n, syntax::let_form(t, p), syntax::let_form(u, r)),
    decreases syntax::left(t, p), 5nat,
{
    if syntax::let_name(t, p) is Some {
        same_binding_form(t, u, n, p + 1, r + 1, "expected ) to close let"@);
    } else {
        same_binding_form(t, u, n, p, r, "expected ) to close let"@);
    }
}

proof fn same_binding_form(
    t: Seq<SpannedView>,
    u: Seq<SpannedView>,
    n: int,
    p: int,
    r: int,
    message: Seq<char>,
)
    requires
        tail_of(t, u, n),
        0 <= p,
        r == p + n,
    ensures
        same(n, syntax::binding_form(t, p, message), syntax::binding_form(u, r, message)),
    decreases syntax::left(t, p), 4nat,
{
    same_bindings(t, u, n, p, r);
    if let (Ok((_, q)), Ok((_, s))) = (syntax::bindings(t, p), syntax::bindings(u, r)) {
        if q > p {
            same_body(t, u, n, q, s);
        }
    }
}

proof fn same_bindings(t: Seq<SpannedView>, u: Seq<SpannedView>, n: int, p: int, r: int)
    requires
        tail_of(t, u, n),
        0 <= p,
        r == p + n,
    ensures
        same(n, syntax::bindings(t, p), syntax::bindings(u, r)),
    decreases syntax::left(t, p), 3nat,
{
    if syntax::tok(t, p) is LeftParen {
        same_binding_items(t, u, n, p + 1, r + 1);
    }
}

proof fn same_binding_items(t: Seq<SpannedView>, u: Seq<SpannedView>, n: int, p: int, r: int)
    requires
        tail_of(t, u, n),
        0 <= p,
        r == p + n,
    ensures
        same(n, syntax::binding_items(t, p), syntax::binding_items(u, r)),
    decreases syntax::left(t, p), 3nat,
{
    if !syntax::at_close(t, p) {
        same_binding(t, u, n, p, r);
        if let (Ok((_, q)), Ok((_, s))) = (syntax::binding(t, p), syntax::binding(u, r)) {
            if q > p {
                same_binding_items(t, u, n, q, s);
            }
        }
    }
}

proof fn same_binding(t: Seq<SpannedView>, u: Seq<SpannedView>, n: int, p: int, r: int)
    requires
        tail_of(t, u, n),
        0 <= p,
        r == p + n,
    ensures
        same(n, syntax::binding(t, p), syntax::binding(u, r)),
    decreases syntax::left(t, p), 2nat,
{
    if syntax::tok(t, p) is LeftParen && syntax::tok(t, p + 1) is Symbol {
        same_expr(t, u, n, p + 2, r + 2);
    }
}

proof fn same_mv_binding_form(t: Seq<SpannedView>, u: Seq<SpannedView>, n: int, p: int, r: int)
    requires
        tail_of(t, u, n),
        0 <= p,
        r == p + n,
    ensures
        same(n, syntax::mv_binding_form(t, p), syntax::mv_binding_form(u, r)),
    decreases syntax::left(t, p), 4nat,
{
    same_mv_bindings(t, u, n, p, r);
    if let (Ok((_, q)), Ok((_, s))) = (syntax::mv_bindings(t, p), syntax::mv_bindings(u, r)) {
        if q > p {
            same_body(t, u, n, q, s);
        }
    }
}

proof fn same_mv_bindings(t: Seq<SpannedView>, u: Seq<SpannedView>, n: int, p: int, r: int)
    requires
        tail_of(t, u, n),
        0 <= p,
        r == p + n,
    ensures
        same(n, syntax::mv_bindings(t, p), syntax::mv_bindings(u, r)),
    decreases syntax::left(t, p), 3nat,
{
    if syntax::tok(t, p) is LeftParen {
        same_mv_binding_items(t, u, n, p + 1, r + 1);
    }
}

proof fn same_mv_binding_items(t: Seq<SpannedView>, u: Seq<SpannedView>, n: int, p: int, r: int)
    requires
        tail_of(t, u, n),
        0 <= p,
        r == p + n,
    ensures
        same(n, syntax::mv_binding_items(t, p), syntax::mv_binding_items(u, r)),
    decreases syntax::left(t, p), 3nat,
{
    if !syntax::at_close(t, p) {
        same_mv_binding(t, u, n, p, r);
        if let (Ok((_, q)), Ok((_, s))) = (syntax::mv_binding(t, p), syntax::mv_binding(u, r)) {
            if q > p {
                same_mv_binding_items(t, u, n, q, s);
            }
        }
    }
}

proof fn same_mv_binding(t: Seq<SpannedView>, u: Seq<SpannedView>, n: int, p: int, r: int)
    requires
        tail_of(t, u, n),
        0 <= p,
        r == p + n,
    ensures
        same(n, syntax::mv_binding(t, p), syntax::mv_binding(u, r)),
    decreases syntax::left(t, p), 2nat,
{
    if syntax::tok(t, p) is LeftParen {
        same_formals(t, u, n, p + 1, r + 1);
        if let (Ok((_, q)), Ok((_, s))) = (syntax::formals(t, p + 1), syntax::formals(u, r + 1)) {
            if q > p + 1 {
                same_expr(t, u, n, q, s);
            }
        }
    }
}

proof fn same_body(t: Seq<SpannedView>, u: Seq<SpannedView>, n: int, p: int, r: int)
    requires
        tail_of(t, u, n),
        0 <= p,
        r == p + n,
    ensures
        same(n, syntax::body(t, p), syntax::body(u, r)),
    decreases syntax::left(t, p), 3nat,
{
    same_definitions(t, u, n, p, r);
    if let (Ok((_, q)), Ok((_, s))) = (syntax::definitions(t, p), syntax::definitions(u, r)) {
        if q >= p {
            same_body_exprs(t, u, n, q, s);
        }
    }
}

proof fn same_definitions(t: Seq<SpannedView>, u: Seq<SpannedView>, n: int, p: int, r: int)
    requires
        tail_of(t, u, n),
        0 <= p,
        r == p + n,
    ensures
        same(n, syntax::definitions(t, p), syntax::definitions(u, r)),
    decreases syntax::left(t, p), 2nat,
{
    if syntax::tok(t, p) is DatumComment {
        same_datum(t, u, n, p + 1, r + 1);
        if let (Ok((_, q)), Ok((_, s))) = (syntax::datum(t, p + 1), syntax::datum(u, r + 1)) {
            if q > p {
                same_definitions(t, u, n, q, s);
            }
        }
    } else if syntax::at_definition(t, p) {
        same_definition(t, u, n, p + 1, r + 1);
        if let (Ok((_, q)), Ok((_, s))) = (
            syntax::definition(t, p + 1),
            syntax::definition(u, r + 1),
        ) {
            if q + 1 > p {
                same_definitions(t, u, n, q + 1, s + 1);
            }
        }
    }
    assert(syntax::at_definition(t, p) == syntax::at_definition(u, r));
}

proof fn same_body_exprs(t: Seq<SpannedView>, u: Seq<SpannedView>, n: int, p: int, r: int)
    requires
        tail_of(t, u, n),
        0 <= p,
        r == p + n,
    ensures
        same(n, syntax::body_exprs(t, p), syntax::body_exprs(u, r)),
    decreases syntax::left(t, p), 2nat,
{
    if syntax::at_close(t, p) {
    } else if syntax::tok(t, p) is DatumComment {
        same_datum(t, u, n, p + 1, r + 1);
        if let (Ok((_, q)), Ok((_, s))) = (syntax::datum(t, p + 1), syntax::datum(u, r + 1)) {
            if q > p {
                same_body_exprs(t, u, n, q, s);
            }
        }
    } else {
        same_expr(t, u, n, p, r);
        if let (Ok((_, q)), Ok((_, s))) = (syntax::expr(t, p), syntax::expr(u, r)) {
            if q > p {
                same_body_exprs(t, u, n, q, s);
            }
        }
    }
}

proof fn same_definition(t: Seq<SpannedView>, u: Seq<SpannedView>, n: int, p: int, r: int)
    requires
        tail_of(t, u, n),
        0 <= p,
        r == p + n,
    ensures
        same(n, syntax::definition(t, p), syntax::definition(u, r)),
    decreases syntax::left(t, p), 5nat,
{
    if syntax::is_symbol(t, p, "define"@) {
        same_define_rest(t, u, n, p + 1, r + 1);
    } else if syntax::is_symbol(t, p, "define-syntax"@) {
        if syntax::tok(t, p + 1) is Symbol {
            same_expr(t, u, n, p + 2, r + 2);
        }
    }
}

proof fn same_define_rest(t: Seq<SpannedView>, u: Seq<SpannedView>, n: int, p: int, r: int)
    requires
        tail_of(t, u, n),
        0 <= p,
        r == p + n,
    ensures
        same(n, syntax::define_rest(t, p), syntax::define_rest(u, r)),
    decreases syntax::left(t, p), 4nat,
{
    if syntax::tok(t, p) is LeftParen {
        if syntax::tok(t, p + 1) is Symbol {
            same_formals_rest(t, u, n, p + 2, r + 2);
            if let (Ok((_, q)), Ok((_, s))) = (
                syntax::formals_rest(t, p + 2),
                syntax::formals_rest(u, r + 2),
            ) {
                if q + 1 > p {
                    same_body(t, u, n, q + 1, s + 1);
                }
            }
        }
    } else if syntax::tok(t, p) is Symbol {
        same_expr(t, u, n, p + 1, r + 1);
    }
}

proof fn same_top_form(t: Seq<SpannedView>, u: Seq<SpannedView>, n: int, p: int, r: int)
    requires
        tail_of(t, u, n),
        0 <= p,
        r == p + n,
    ensures
        same(n, syntax::top_form(t, p), syntax::top_form(u, r)),
    decreases syntax::left(t, p), 1nat,
{
    if syntax::tok(t, p) is DatumComment {
        same_datum(t, u, n, p + 1, r + 1);
        if let (Ok((_, q)), Ok((_, s))) = (syntax::datum(t, p + 1), syntax::datum(u, r + 1)) {
            if q > p {
                same_top_form(t, u, n, q, s);
            }
        }
    } else if syntax::at_definition(t, p) {
        same_definition(t, u, n, p + 1, r + 1);
    } else if syntax::tok(t, p) is LeftParen && syntax::is_symbol(t, p + 1, "begin"@) {
        same_top_forms(t, u, n, p + 2, r + 2);
    } else {
        same_expr(t, u, n, p, r);
    }
    assert(syntax::at_definition(t, p) == syntax::at_definition(u, r));
}

proof fn same_top_forms(t: Seq<SpannedView>, u: Seq<SpannedView>, n: int, p: int, r: int)
    requires
        tail_of(t, u, n),
        0 <= p,
        r == p + n,
    ensures
        same(n, syntax::top_forms(t, p), syntax::top_forms(u, r)),
    decreases syntax::left(t, p), 2nat,
{
    if !syntax::at_close(t, p) {
        same_top_form(t, u, n, p, r);
        if let (Ok((_, q)), Ok((_, s))) = (syntax::top_form(t, p), syntax::top_form(u, r)) {
            if q > p {
                same_top_forms(t, u, n, q, s);
            }
        }
    }
}

/// A program reads the same wherever its tokens begin.
pub proof fn same_program_from(t: Seq<SpannedView>, u: Seq<SpannedView>, n: int, p: int, r: int)
    requires
        tail_of(t, u, n),
        0 <= p,
        r == p + n,
    ensures
        same(n, syntax::program_from(t, p), syntax::program_from(u, r)),
    decreases syntax::left(t, p),
{
    if !(syntax::tok(t, p) is Eof) {
        same_top_form(t, u, n, p, r);
        if let (Ok((_, q)), Ok((_, s))) = (syntax::top_form(t, p), syntax::top_form(u, r)) {
            if q > p {
                same_program_from(t, u, n, q, s);
            }
        }
    }
}

/// The tokens from an index on.
pub proof fn lemma_tail(u: Seq<SpannedView>, n: int)
    requires
        0 <= n <= u.len(),
    ensures
        tail_of(u.subrange(n, u.len() as int), u, n),
{
}

/// Tokens without positions that are the same are the same at every index.
proof fn lemma_alike(t: Seq<SpannedView>, u: Seq<SpannedView>)
    requires
        surroundings::tokens_of(t) == surroundings::tokens_of(u),
    ensures
        tail_of(t, u, 0),
{
    assert(surroundings::tokens_of(t).len() == t.len());
    assert(surroundings::tokens_of(u).len() == u.len());
    assert forall|p: int, r: int|
        #![trigger syntax::tok(t, p), syntax::tok(u, r)]
        0 <= p && r == p + 0 implies syntax::tok(t, p) == syntax::tok(u, r) by {
        if p < t.len() {
            assert(surroundings::tokens_of(t)[p] == t[p].token);
            assert(surroundings::tokens_of(u)[p] == u[p].token);
        }
    }
}

/// Whether two results agree, the positions of errors aside.
pub open spec fn same_result<T>(a: Result<T, ErrorView>, b: Result<T, ErrorView>) -> bool {
    match (a, b) {
        (Ok(x), Ok(y)) => x == y,
        (Err(e), Err(f)) => e.message == f.message,
        _ => false,
    }
}

/// What is left without the datum comments depends on the tokens alone.
pub proof fn lemma_uncommented_alike(t: Seq<SpannedView>, u: Seq<SpannedView>)
    requires
        soundness::ends(t),
        surroundings::tokens_of(t) == surroundings::tokens_of(u),
    ensures
        surroundings::tokens_of(syntax::uncommented(t)) == surroundings::tokens_of(
            syntax::uncommented(u),
        ),
    decreases t.len(),
{
    assert(surroundings::tokens_of(t).len() == t.len());
    assert(surroundings::tokens_of(u).len() == u.len());
    assert(surroundings::tokens_of(u).last() == u.last().token);
    assert(surroundings::tokens_of(t).last() == t.last().token);
    if t.len() == 1 {
        comments::lemma_end_only(t);
        comments::lemma_end_only(u);
    } else {
        let a = t.subrange(1, t.len() as int);
        let b = u.subrange(1, u.len() as int);
        assert(surroundings::tokens_of(a) =~= surroundings::tokens_of(t).subrange(
            1,
            t.len() as int,
        ));
        assert(surroundings::tokens_of(b) =~= surroundings::tokens_of(u).subrange(
            1,
            u.len() as int,
        ));
        lemma_uncommented_alike(a, b);
        let x = syntax::uncommented(a);
        let y = syntax::uncommented(b);
        assert(surroundings::tokens_of(x).len() == x.len());
        assert(surroundings::tokens_of(y).len() == y.len());
        assert(surroundings::tokens_of(t)[0] == t[0].token);
        assert(surroundings::tokens_of(u)[0] == u[0].token);
        lemma_alike(x, y);
        same_datum(x, y, 0, 0, 0);
        assert(surroundings::tokens_of(seq![t[0]] + x) =~= seq![t[0].token]
            + surroundings::tokens_of(x));
        assert(surroundings::tokens_of(seq![u[0]] + y) =~= seq![u[0].token]
            + surroundings::tokens_of(y));
        if let Ok((_, q)) = syntax::datum(x, 0) {
            comments::lemma_uncommented_ends(a);
            soundness::lemma_datum(x, 0);
            assert(surroundings::tokens_of(x.subrange(q, x.len() as int))
                =~= surroundings::tokens_of(x).subrange(q, x.len() as int));
            assert(surroundings::tokens_of(y.subrange(q, y.len() as int))
                =~= surroundings::tokens_of(y).subrange(q, y.len() as int));
        }
    }
}

/// Two sources of which the same tokens are left without the datum comments mean
/// the same.
pub proof fn lemma_same_meaning(a: Seq<u8>, b: Seq<u8>)
    requires
        lexical::tokens(a) is Ok,
        lexical::tokens(b) is Ok,
        surroundings::tokens_of(syntax::uncommented(lexical::tokens(a)->Ok_0))
            == surroundings::tokens_of(syntax::uncommented(lexical::tokens(b)->Ok_0)),
    ensures
        same_result(syntax::program(a), syntax::program(b)),
        same_result(syntax::expression(a), syntax::expression(b)),
{
    let t = syntax::uncommented(lexical::tokens(a)->Ok_0);
    let u = syntax::uncommented(lexical::tokens(b)->Ok_0);
    lemma_alike(t, u);
    same_program_from(t, u, 0, 0, 0);
    same_expr(t, u, 0, 0, 0);
}

/// Two sources with the same tokens mean the same, whatever whitespace and
/// comments they hold: the same tree, or the same error but for its position.
pub proof fn law_layout_is_irrelevant(a: Seq<u8>, b: Seq<u8>)
    requires
        surroundings::kinds(lexical::tokens(a)) == surroundings::kinds(lexical::tokens(b)),
    ensures
        same_result(syntax::program(a), syntax::program(b)),
        same_result(syntax::expression(a), syntax::expression(b)),
{
    if let Ok(t) = lexical::tokens(a) {
        let u = lexical::tokens(b)->Ok_0;
        laws::law_single_trailing_eof(a);
        lemma_uncommented_alike(t, u);
        lemma_same_meaning(a, b);
    }
}

} // verus!
