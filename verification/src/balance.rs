//! Parentheses: whatever is read as a phrase is balanced.

use crate::comments;
use crate::laws;
use crate::lexical;
use crate::lexical::{SpannedView, TokenView};
use crate::soundness;
use crate::syntax;
use crate::syntax::{uncommented, Form};
use vstd::prelude::*;

verus! {

/// What a token adds to the number of lists that are open.
pub open spec fn weight(token: TokenView) -> int {
    match token {
        TokenView::LeftParen | TokenView::VectorPrefix | TokenView::ByteVectorPrefix => 1,
        TokenView::RightParen => -1,
        _ => 0,
    }
}

/// How many lists the tokens from `p` up to `q` open more than they close.
pub open spec fn level(t: Seq<SpannedView>, p: int, q: int) -> int
    decreases q - p,
{
    if q <= p {
        0
    } else {
        level(t, p, q - 1) + weight(syntax::tok(t, q - 1))
    }
}

/// Whether the tokens from `p` up to `q` close what they open, and nothing
/// else.
pub open spec fn balanced(t: Seq<SpannedView>, p: int, q: int) -> bool {
    &&& level(t, p, q) == 0
    &&& forall|k: int| p <= k <= q ==> #[trigger] level(t, p, k) >= 0
}

/// Whether the tokens from `p` up to `q` are balanced, and hold no datum comment
/// once these are taken out.
#[verifier::opaque]
pub open spec fn neat(t: Seq<SpannedView>, p: int, q: int) -> bool {
    &&& p <= q
    &&& balanced(t, p, q)
    &&& comments::settled(t) ==> forall|k: int|
        p <= k < q ==> !(#[trigger] syntax::tok(t, k) is DatumComment)
}

/// Whether the tokens from `p` up to `q` are the contents of a list and the
/// parenthesis that closes it.
pub open spec fn closing(t: Seq<SpannedView>, p: int, q: int) -> bool {
    p < q && neat(t, p, q - 1) && syntax::tok(t, q - 1) is RightParen
}

/// The levels of two runs of tokens add up.
pub proof fn lemma_level(t: Seq<SpannedView>, p: int, q: int, r: int)
    requires
        p <= q <= r,
    ensures
        level(t, p, r) == level(t, p, q) + level(t, q, r),
    decreases r - q,
{
    if q < r {
        lemma_level(t, p, q, r - 1);
    }
}

proof fn lemma_empty(t: Seq<SpannedView>, p: int)
    ensures
        neat(t, p, p),
{
    reveal(neat);
}

proof fn lemma_token(t: Seq<SpannedView>, p: int)
    requires
        weight(syntax::tok(t, p)) == 0,
        syntax::tok(t, p) is DatumComment ==> !comments::settled(t),
    ensures
        neat(t, p, p + 1),
{
    reveal(neat);
    reveal_with_fuel(level, 2);
}

proof fn lemma_join(t: Seq<SpannedView>, p: int, q: int, r: int)
    requires
        neat(t, p, q),
        neat(t, q, r),
    ensures
        neat(t, p, r),
{
    reveal(neat);
    lemma_level(t, p, q, r);
    assert forall|k: int| p <= k <= r implies #[trigger] level(t, p, k) >= 0 by {
        if k > q {
            lemma_level(t, p, q, k);
        }
    }
}

proof fn lemma_wrap(t: Seq<SpannedView>, p: int, q: int)
    requires
        weight(syntax::tok(t, p)) == 1,
        closing(t, p + 1, q),
    ensures
        neat(t, p, q),
{
    reveal(neat);
    reveal_with_fuel(level, 2);
    lemma_level(t, p, p + 1, q);
    assert(level(t, p, p + 1) == 1);
    assert forall|k: int| p <= k <= q implies #[trigger] level(t, p, k) >= 0 by {
        if k > p {
            lemma_level(t, p, p + 1, k);
            assert(level(t, p + 1, k) >= -1);
        }
    }
}

/// A datum is balanced.
pub proof fn neat_datum(t: Seq<SpannedView>, p: int)
    requires
        soundness::ends(t),
        0 <= p < t.len(),
    ensures
        syntax::datum(t, p) matches Ok((_, q)) ==> neat(t, p, q),
    decreases syntax::left(t, p), 1nat,
{
    soundness::lemma_datum(t, p);
    match syntax::tok(t, p) {
        TokenView::DatumComment => {
            soundness::lemma_datum(t, p + 1);
            neat_datum(t, p + 1);
            if let Ok((_, q)) = syntax::datum(t, p + 1) {
                assert(t[p].token is DatumComment);
                lemma_token(t, p);
                lemma_join(t, p, p + 1, q);
                soundness::lemma_datum(t, q);
                neat_datum(t, q);
                if let Ok((_, r)) = syntax::datum(t, q) {
                    lemma_join(t, p, q, r);
                }
            }
        },
        TokenView::Quote
        | TokenView::QuasiQuote
        | TokenView::Unquote
        | TokenView::UnquoteSplicing => {
            neat_datum(t, p + 1);
            if let Ok((_, q)) = syntax::datum(t, p + 1) {
                lemma_token(t, p);
                lemma_join(t, p, p + 1, q);
            }
        },
        TokenView::VectorPrefix => {
            neat_data(t, p + 1);
            if let Ok((_, q)) = syntax::datum(t, p) {
                lemma_wrap(t, p, q);
            }
        },
        TokenView::ByteVectorPrefix => {
            neat_octets(t, p + 1);
            if let Ok((_, q)) = syntax::datum(t, p) {
                lemma_wrap(t, p, q);
            }
        },
        TokenView::LeftParen => {
            neat_list_rest(t, p + 1);
            if let Ok((_, q)) = syntax::datum(t, p) {
                lemma_wrap(t, p, q);
            }
        },
        TokenView::RightParen => {},
        _ => lemma_token(t, p),
    }
}

proof fn neat_data(t: Seq<SpannedView>, p: int)
    requires
        soundness::ends(t),
        0 <= p < t.len(),
    ensures
        syntax::data(t, p) matches Ok((_, q)) ==> neat(t, p, q),
    decreases syntax::left(t, p), 2nat,
{
    lemma_empty(t, p);
    if !syntax::at_close(t, p) {
        soundness::lemma_datum(t, p);
        neat_datum(t, p);
        if let Ok((_, q)) = syntax::datum(t, p) {
            soundness::lemma_data(t, q);
            neat_data(t, q);
            if let Ok((_, r)) = syntax::data(t, q) {
                lemma_join(t, p, q, r);
            }
        }
    }
}

proof fn neat_octets(t: Seq<SpannedView>, p: int)
    requires
        soundness::ends(t),
        0 <= p < t.len(),
    ensures
        syntax::octets(t, p) matches Ok((_, q)) ==> neat(t, p, q),
    decreases syntax::left(t, p), 2nat,
{
    lemma_empty(t, p);
    if !syntax::at_close(t, p) {
        soundness::lemma_datum(t, p);
        neat_datum(t, p);
        if let Ok((_, q)) = syntax::datum(t, p) {
            soundness::lemma_octets(t, q);
            neat_octets(t, q);
            if let Ok((_, r)) = syntax::octets(t, q) {
                lemma_join(t, p, q, r);
            }
        }
    }
}

proof fn neat_list_rest(t: Seq<SpannedView>, p: int)
    requires
        soundness::ends(t),
        0 <= p < t.len(),
    ensures
        syntax::list_rest(t, p) matches Ok((_, q)) ==> neat(t, p, q),
    decreases syntax::left(t, p), 2nat,
{
    lemma_empty(t, p);
    if syntax::tok(t, p) is Dot {
        soundness::lemma_datum(t, p + 1);
        neat_datum(t, p + 1);
        if let Ok((_, q)) = syntax::datum(t, p + 1) {
            lemma_token(t, p);
            lemma_join(t, p, p + 1, q);
        }
    } else if !syntax::at_close(t, p) {
        soundness::lemma_datum(t, p);
        neat_datum(t, p);
        if let Ok((_, q)) = syntax::datum(t, p) {
            soundness::lemma_list_rest(t, q);
            neat_list_rest(t, q);
            if let Ok((_, r)) = syntax::list_rest(t, q) {
                lemma_join(t, p, q, r);
            }
        }
    }
}

proof fn neat_formals_rest(t: Seq<SpannedView>, p: int)
    requires
        soundness::ends(t),
        0 <= p < t.len(),
    ensures
        syntax::formals_rest(t, p) matches Ok((_, q)) ==> neat(t, p, q),
    decreases syntax::left(t, p),
{
    lemma_empty(t, p);
    if syntax::tok(t, p) is Symbol {
        soundness::lemma_formals_rest(t, p + 1);
        neat_formals_rest(t, p + 1);
        if let Ok((_, q)) = syntax::formals_rest(t, p + 1) {
            lemma_token(t, p);
            lemma_join(t, p, p + 1, q);
        }
    } else if syntax::tok(t, p) is Dot && syntax::tok(t, p + 1) is Symbol {
        lemma_token(t, p);
        lemma_token(t, p + 1);
        lemma_join(t, p, p + 1, p + 2);
    }
}

proof fn neat_formals(t: Seq<SpannedView>, p: int)
    requires
        soundness::ends(t),
        0 <= p < t.len(),
    ensures
        syntax::formals(t, p) matches Ok((_, q)) ==> neat(t, p, q),
{
    if syntax::tok(t, p) is Symbol {
        lemma_token(t, p);
    } else if syntax::tok(t, p) is LeftParen {
        neat_formals_rest(t, p + 1);
        soundness::lemma_formals_rest(t, p + 1);
        if let Ok((_, q)) = syntax::formals(t, p) {
            lemma_wrap(t, p, q);
        }
    }
}

proof fn neat_expr(t: Seq<SpannedView>, p: int)
    requires
        soundness::ends(t),
        0 <= p < t.len(),
    ensures
        syntax::expr(t, p) matches Ok((_, q)) ==> neat(t, p, q),
    decreases syntax::left(t, p), 1nat,
{
    soundness::lemma_expr(t, p);
    match syntax::tok(t, p) {
        TokenView::DatumComment => {
            soundness::lemma_datum(t, p + 1);
            neat_datum(t, p + 1);
            if let Ok((_, q)) = syntax::datum(t, p + 1) {
                assert(t[p].token is DatumComment);
                lemma_token(t, p);
                lemma_join(t, p, p + 1, q);
                soundness::lemma_expr(t, q);
                neat_expr(t, q);
                if let Ok((_, r)) = syntax::expr(t, q) {
                    lemma_join(t, p, q, r);
                }
            }
        },
        TokenView::Quote
        | TokenView::QuasiQuote
        | TokenView::Unquote
        | TokenView::UnquoteSplicing => {
            neat_datum(t, p + 1);
            if let Ok((_, q)) = syntax::datum(t, p + 1) {
                lemma_token(t, p);
                lemma_join(t, p, p + 1, q);
            }
        },
        TokenView::VectorPrefix | TokenView::ByteVectorPrefix => neat_datum(t, p),
        TokenView::LeftParen => {
            neat_list_expr(t, p + 1);
            if let Ok((_, q)) = syntax::list_expr(t, p + 1) {
                lemma_wrap(t, p, q);
            }
        },
        TokenView::RightParen => {},
        _ => lemma_token(t, p),
    }
}

proof fn neat_exprs(t: Seq<SpannedView>, p: int)
    requires
        soundness::ends(t),
        0 <= p < t.len(),
    ensures
        syntax::exprs(t, p) matches Ok((_, q)) ==> neat(t, p, q),
    decreases syntax::left(t, p), 2nat,
{
    lemma_empty(t, p);
    if !syntax::at_close(t, p) {
        soundness::lemma_expr(t, p);
        neat_expr(t, p);
        if let Ok((_, q)) = syntax::expr(t, p) {
            soundness::lemma_exprs(t, q);
            neat_exprs(t, q);
            if let Ok((_, r)) = syntax::exprs(t, q) {
                lemma_join(t, p, q, r);
            }
        }
    }
}

proof fn neat_list_expr(t: Seq<SpannedView>, p: int)
    requires
        soundness::ends(t),
        0 <= p < t.len(),
    ensures
        syntax::list_expr(t, p) matches Ok((_, q)) ==> closing(t, p, q),
    decreases syntax::left(t, p), 5nat,
{
    lemma_empty(t, p);
    if !(syntax::tok(t, p) is RightParen) {
        match syntax::form_at(t, p) {
            Some(form) => {
                soundness::lemma_special_form(t, p + 1, form);
                neat_special_form(t, p + 1, form);
                if let Ok((_, q)) = syntax::special_form(t, p + 1, form) {
                    lemma_token(t, p);
                    lemma_join(t, p, p + 1, q - 1);
                }
            },
            None => neat_application(t, p),
        }
    }
}

proof fn neat_application(t: Seq<SpannedView>, p: int)
    requires
        soundness::ends(t),
        0 <= p < t.len(),
    ensures
        syntax::application(t, p) matches Ok((_, q)) ==> closing(t, p, q),
    decreases syntax::left(t, p), 4nat,
{
    soundness::lemma_expr(t, p);
    neat_expr(t, p);
    if let Ok((_, q)) = syntax::expr(t, p) {
        soundness::lemma_exprs(t, q);
        neat_exprs(t, q);
        if let Ok((_, r)) = syntax::exprs(t, q) {
            lemma_join(t, p, q, r);
        }
    }
}

proof fn neat_special_form(t: Seq<SpannedView>, p: int, form: Form)
    requires
        soundness::ends(t),
        0 <= p < t.len(),
    ensures
        syntax::special_form(t, p, form) matches Ok((_, q)) ==> closing(t, p, q),
    decreases syntax::left(t, p), 6nat,
{
    match form {
        Form::Quote => neat_datum(t, p),
        Form::Lambda => neat_lambda(t, p),
        Form::If => neat_if_form(t, p),
        Form::SetBang => neat_set_form(t, p),
        Form::Cond => neat_cond_clauses(t, p),
        Form::Case => neat_case_form(t, p),
        Form::When | Form::Unless => neat_tested_body(t, p),
        Form::And | Form::Or | Form::Begin => neat_exprs(t, p),
        Form::Let => neat_let_form(t, p),
        Form::LetStar => neat_binding_form(t, p, "expected ) to close let*"@),
        Form::LetRec => neat_binding_form(t, p, "expected ) to close letrec"@),
        Form::LetRecStar => neat_binding_form(t, p, "expected ) to close letrec*"@),
        Form::LetValues | Form::LetStarValues => neat_mv_binding_form(t, p),
    }
    soundness::lemma_datum(t, p);
    soundness::lemma_exprs(t, p);
    soundness::lemma_cond_clauses(t, p);
}

proof fn neat_lambda(t: Seq<SpannedView>, p: int)
    requires
        soundness::ends(t),
        0 <= p < t.len(),
    ensures
        syntax::lambda(t, p) matches Ok((_, q)) ==> closing(t, p, q),
    decreases syntax::left(t, p), 4nat,
{
    soundness::lemma_formals(t, p);
    neat_formals(t, p);
    if let Ok((_, q)) = syntax::formals(t, p) {
        soundness::lemma_body(t, q);
        neat_body(t, q);
        if let Ok((_, r)) = syntax::body(t, q) {
            lemma_join(t, p, q, r);
        }
    }
}

proof fn neat_if_form(t: Seq<SpannedView>, p: int)
    requires
        soundness::ends(t),
        0 <= p < t.len(),
    ensures
        syntax::if_form(t, p) matches Ok((_, q)) ==> closing(t, p, q),
    decreases syntax::left(t, p), 4nat,
{
    soundness::lemma_expr(t, p);
    neat_expr(t, p);
    if let Ok((_, q)) = syntax::expr(t, p) {
        soundness::lemma_expr(t, q);
        neat_expr(t, q);
        if let Ok((_, r)) = syntax::expr(t, q) {
            lemma_join(t, p, q, r);
            soundness::lemma_expr(t, r);
            neat_expr(t, r);
            if let Ok((_, s)) = syntax::expr(t, r) {
                lemma_join(t, p, r, s);
            }
        }
    }
}

proof fn neat_set_form(t: Seq<SpannedView>, p: int)
    requires
        soundness::ends(t),
        0 <= p < t.len(),
    ensures
        syntax::set_form(t, p) matches Ok((_, q)) ==> closing(t, p, q),
    decreases syntax::left(t, p), 4nat,
{
    if syntax::tok(t, p) is Symbol {
        soundness::lemma_expr(t, p + 1);
        neat_expr(t, p + 1);
        if let Ok((_, q)) = syntax::expr(t, p + 1) {
            lemma_token(t, p);
            lemma_join(t, p, p + 1, q);
        }
    }
}

proof fn neat_cond_clauses(t: Seq<SpannedView>, p: int)
    requires
        soundness::ends(t),
        0 <= p < t.len(),
    ensures
        syntax::cond_clauses(t, p) matches Ok((_, q)) ==> neat(t, p, q),
    decreases syntax::left(t, p), 4nat,
{
    lemma_empty(t, p);
    if !syntax::at_close(t, p) {
        soundness::lemma_cond_clause(t, p);
        neat_cond_clause(t, p);
        if let Ok((_, q)) = syntax::cond_clause(t, p) {
            soundness::lemma_cond_clauses(t, q);
            neat_cond_clauses(t, q);
            if let Ok((_, r)) = syntax::cond_clauses(t, q) {
                lemma_join(t, p, q, r);
            }
        }
    }
}

proof fn neat_cond_clause(t: Seq<SpannedView>, p: int)
    requires
        soundness::ends(t),
        0 <= p < t.len(),
    ensures
        syntax::cond_clause(t, p) matches Ok((_, q)) ==> neat(t, p, q),
    decreases syntax::left(t, p), 3nat,
{
    soundness::lemma_cond_clause(t, p);
    if let Ok((_, z)) = syntax::cond_clause(t, p) {
        if syntax::is_symbol(t, p + 1, "else"@) {
            soundness::lemma_exprs(t, p + 2);
            neat_exprs(t, p + 2);
            lemma_token(t, p + 1);
            lemma_join(t, p + 1, p + 2, z - 1);
        } else {
            soundness::lemma_expr(t, p + 1);
            neat_expr(t, p + 1);
            let q = syntax::expr(t, p + 1)->Ok_0.1;
            if syntax::is_symbol(t, q, "=>"@) {
                soundness::lemma_expr(t, q + 1);
                neat_expr(t, q + 1);
                lemma_token(t, q);
                lemma_join(t, p + 1, q, q + 1);
                lemma_join(t, p + 1, q + 1, z - 1);
            } else {
                soundness::lemma_exprs(t, q);
                neat_exprs(t, q);
                lemma_join(t, p + 1, q, z - 1);
            }
        }
        lemma_wrap(t, p, z);
    }
}

proof fn neat_case_form(t: Seq<SpannedView>, p: int)
    requires
        soundness::ends(t),
        0 <= p < t.len(),
    ensures
        syntax::case_form(t, p) matches Ok((_, q)) ==> closing(t, p, q),
    decreases syntax::left(t, p), 5nat,
{
    soundness::lemma_expr(t, p);
    neat_expr(t, p);
    if let Ok((_, q)) = syntax::expr(t, p) {
        soundness::lemma_case_clauses(t, q);
        neat_case_clauses(t, q);
        if let Ok((_, r)) = syntax::case_clauses(t, q) {
            lemma_join(t, p, q, r);
        }
    }
}

proof fn neat_case_clauses(t: Seq<SpannedView>, p: int)
    requires
        soundness::ends(t),
        0 <= p < t.len(),
    ensures
        syntax::case_clauses(t, p) matches Ok((_, q)) ==> neat(t, p, q),
    decreases syntax::left(t, p), 4nat,
{
    lemma_empty(t, p);
    if !syntax::at_close(t, p) {
        soundness::lemma_case_clause(t, p);
        neat_case_clause(t, p);
        if let Ok((_, q)) = syntax::case_clause(t, p) {
            soundness::lemma_case_clauses(t, q);
            neat_case_clauses(t, q);
            if let Ok((_, r)) = syntax::case_clauses(t, q) {
                lemma_join(t, p, q, r);
            }
        }
    }
}

proof fn neat_case_clause(t: Seq<SpannedView>, p: int)
    requires
        soundness::ends(t),
        0 <= p < t.len(),
    ensures
        syntax::case_clause(t, p) matches Ok((_, q)) ==> neat(t, p, q),
    decreases syntax::left(t, p), 3nat,
{
    soundness::lemma_case_clause(t, p);
    if let Ok((_, z)) = syntax::case_clause(t, p) {
        if syntax::is_symbol(t, p + 1, "else"@) {
            soundness::lemma_exprs(t, p + 2);
            neat_exprs(t, p + 2);
            lemma_token(t, p + 1);
            lemma_join(t, p + 1, p + 2, z - 1);
        } else {
            soundness::lemma_data(t, p + 2);
            neat_data(t, p + 2);
            let q = syntax::data(t, p + 2)->Ok_0.1;
            lemma_wrap(t, p + 1, q + 1);
            soundness::lemma_exprs(t, q + 1);
            neat_exprs(t, q + 1);
            lemma_join(t, p + 1, q + 1, z - 1);
        }
        lemma_wrap(t, p, z);
    }
}

proof fn neat_tested_body(t: Seq<SpannedView>, p: int)
    requires
        soundness::ends(t),
        0 <= p < t.len(),
    ensures
        syntax::tested_body(t, p) matches Ok((_, q)) ==> closing(t, p, q),
    decreases syntax::left(t, p), 4nat,
{
    soundness::lemma_expr(t, p);
    neat_expr(t, p);
    if let Ok((_, q)) = syntax::expr(t, p) {
        soundness::lemma_exprs(t, q);
        neat_exprs(t, q);
        if let Ok((_, r)) = syntax::exprs(t, q) {
            lemma_join(t, p, q, r);
        }
    }
}

proof fn neat_let_form(t: Seq<SpannedView>, p: int)
    requires
        soundness::ends(t),
        0 <= p < t.len(),
    ensures
        syntax::let_form(t, p) matches Ok((_, q)) ==> closing(t, p, q),
    decreases syntax::left(t, p), 5nat,
{
    if syntax::let_name(t, p) is Some {
        soundness::lemma_binding_form(t, p + 1, "expected ) to close let"@);
        neat_binding_form(t, p + 1, "expected ) to close let"@);
        if let Ok((_, q)) = syntax::binding_form(t, p + 1, "expected ) to close let"@) {
            lemma_token(t, p);
            lemma_join(t, p, p + 1, q - 1);
        }
    } else {
        neat_binding_form(t, p, "expected ) to close let"@);
    }
}

proof fn neat_binding_form(t: Seq<SpannedView>, p: int, message: Seq<char>)
    requires
        soundness::ends(t),
        0 <= p < t.len(),
    ensures
        syntax::binding_form(t, p, message) matches Ok((_, q)) ==> closing(t, p, q),
    decreases syntax::left(t, p), 4nat,
{
    soundness::lemma_bindings(t, p);
    neat_bindings(t, p);
    if let Ok((_, q)) = syntax::bindings(t, p) {
        soundness::lemma_body(t, q);
        neat_body(t, q);
        if let Ok((_, r)) = syntax::body(t, q) {
            lemma_join(t, p, q, r);
        }
    }
}

proof fn neat_bindings(t: Seq<SpannedView>, p: int)
    requires
        soundness::ends(t),
        0 <= p < t.len(),
    ensures
        syntax::bindings(t, p) matches Ok((_, q)) ==> neat(t, p, q),
    decreases syntax::left(t, p), 3nat,
{
    if syntax::tok(t, p) is LeftParen {
        soundness::lemma_binding_items(t, p + 1);
        neat_binding_items(t, p + 1);
        if let Ok((_, q)) = syntax::bindings(t, p) {
            lemma_wrap(t, p, q);
        }
    }
}

proof fn neat_binding_items(t: Seq<SpannedView>, p: int)
    requires
        soundness::ends(t),
        0 <= p < t.len(),
    ensures
        syntax::binding_items(t, p) matches Ok((_, q)) ==> neat(t, p, q),
    decreases syntax::left(t, p), 3nat,
{
    lemma_empty(t, p);
    if !syntax::at_close(t, p) {
        soundness::lemma_binding(t, p);
        neat_binding(t, p);
        if let Ok((_, q)) = syntax::binding(t, p) {
            soundness::lemma_binding_items(t, q);
            neat_binding_items(t, q);
            if let Ok((_, r)) = syntax::binding_items(t, q) {
                lemma_join(t, p, q, r);
            }
        }
    }
}

proof fn neat_binding(t: Seq<SpannedView>, p: int)
    requires
        soundness::ends(t),
        0 <= p < t.len(),
    ensures
        syntax::binding(t, p) matches Ok((_, q)) ==> neat(t, p, q),
    decreases syntax::left(t, p), 2nat,
{
    soundness::lemma_binding(t, p);
    if let Ok((_, z)) = syntax::binding(t, p) {
        soundness::lemma_expr(t, p + 2);
        neat_expr(t, p + 2);
        lemma_token(t, p + 1);
        lemma_join(t, p + 1, p + 2, z - 1);
        lemma_wrap(t, p, z);
    }
}

proof fn neat_mv_binding_form(t: Seq<SpannedView>, p: int)
    requires
        soundness::ends(t),
        0 <= p < t.len(),
    ensures
        syntax::mv_binding_form(t, p) matches Ok((_, q)) ==> closing(t, p, q),
    decreases syntax::left(t, p), 4nat,
{
    soundness::lemma_mv_bindings(t, p);
    neat_mv_bindings(t, p);
    if let Ok((_, q)) = syntax::mv_bindings(t, p) {
        soundness::lemma_body(t, q);
        neat_body(t, q);
        if let Ok((_, r)) = syntax::body(t, q) {
            lemma_join(t, p, q, r);
        }
    }
}

proof fn neat_mv_bindings(t: Seq<SpannedView>, p: int)
    requires
        soundness::ends(t),
        0 <= p < t.len(),
    ensures
        syntax::mv_bindings(t, p) matches Ok((_, q)) ==> neat(t, p, q),
    decreases syntax::left(t, p), 3nat,
{
    if syntax::tok(t, p) is LeftParen {
        soundness::lemma_mv_binding_items(t, p + 1);
        neat_mv_binding_items(t, p + 1);
        if let Ok((_, q)) = syntax::mv_bindings(t, p) {
            lemma_wrap(t, p, q);
        }
    }
}

proof fn neat_mv_binding_items(t: Seq<SpannedView>, p: int)
    requires
        soundness::ends(t),
        0 <= p < t.len(),
    ensures
        syntax::mv_binding_items(t, p) matches Ok((_, q)) ==> neat(t, p, q),
    decreases syntax::left(t, p), 3nat,
{
    lemma_empty(t, p);
    if !syntax::at_close(t, p) {
        soundness::lemma_mv_binding(t, p);
        neat_mv_binding(t, p);
        if let Ok((_, q)) = syntax::mv_binding(t, p) {
            soundness::lemma_mv_binding_items(t, q);
            neat_mv_binding_items(t, q);
            if let Ok((_, r)) = syntax::mv_binding_items(t, q) {
                lemma_join(t, p, q, r);
            }
        }
    }
}

proof fn neat_mv_binding(t: Seq<SpannedView>, p: int)
    requires
        soundness::ends(t),
        0 <= p < t.len(),
    ensures
        syntax::mv_binding(t, p) matches Ok((_, q)) ==> neat(t, p, q),
    decreases syntax::left(t, p), 2nat,
{
    soundness::lemma_mv_binding(t, p);
    if let Ok((_, z)) = syntax::mv_binding(t, p) {
        soundness::lemma_formals(t, p + 1);
        neat_formals(t, p + 1);
        let q = syntax::formals(t, p + 1)->Ok_0.1;
        soundness::lemma_expr(t, q);
        neat_expr(t, q);
        lemma_join(t, p + 1, q, z - 1);
        lemma_wrap(t, p, z);
    }
}

proof fn neat_body(t: Seq<SpannedView>, p: int)
    requires
        soundness::ends(t),
        0 <= p < t.len(),
    ensures
        syntax::body(t, p) matches Ok((_, q)) ==> neat(t, p, q),
    decreases syntax::left(t, p), 3nat,
{
    soundness::lemma_definitions(t, p);
    neat_definitions(t, p);
    if let Ok((_, q)) = syntax::definitions(t, p) {
        soundness::lemma_body_exprs(t, q);
        neat_body_exprs(t, q);
        if let Ok((_, r)) = syntax::body_exprs(t, q) {
            lemma_join(t, p, q, r);
        }
    }
}

proof fn neat_definitions(t: Seq<SpannedView>, p: int)
    requires
        soundness::ends(t),
        0 <= p < t.len(),
    ensures
        syntax::definitions(t, p) matches Ok((_, q)) ==> neat(t, p, q),
    decreases syntax::left(t, p), 2nat,
{
    lemma_empty(t, p);
    if syntax::tok(t, p) is DatumComment {
        soundness::lemma_datum(t, p + 1);
        neat_datum(t, p + 1);
        if let Ok((_, q)) = syntax::datum(t, p + 1) {
            assert(t[p].token is DatumComment);
            lemma_token(t, p);
            lemma_join(t, p, p + 1, q);
            soundness::lemma_definitions(t, q);
            neat_definitions(t, q);
            if let Ok((_, r)) = syntax::definitions(t, q) {
                lemma_join(t, p, q, r);
            }
        }
    } else if syntax::at_definition(t, p) {
        soundness::lemma_definition(t, p + 1);
        neat_definition(t, p + 1);
        if let Ok((_, q)) = syntax::definition(t, p + 1) {
            if syntax::tok(t, q) is RightParen {
                lemma_wrap(t, p, q + 1);
                soundness::lemma_definitions(t, q + 1);
                neat_definitions(t, q + 1);
                if let Ok((_, r)) = syntax::definitions(t, q + 1) {
                    lemma_join(t, p, q + 1, r);
                }
            }
        }
    }
}

proof fn neat_body_exprs(t: Seq<SpannedView>, p: int)
    requires
        soundness::ends(t),
        0 <= p < t.len(),
    ensures
        syntax::body_exprs(t, p) matches Ok((_, q)) ==> neat(t, p, q),
    decreases syntax::left(t, p), 2nat,
{
    lemma_empty(t, p);
    if syntax::at_close(t, p) {
    } else if syntax::tok(t, p) is DatumComment {
        soundness::lemma_datum(t, p + 1);
        neat_datum(t, p + 1);
        if let Ok((_, q)) = syntax::datum(t, p + 1) {
            assert(t[p].token is DatumComment);
            lemma_token(t, p);
            lemma_join(t, p, p + 1, q);
            soundness::lemma_body_exprs(t, q);
            neat_body_exprs(t, q);
            if let Ok((_, r)) = syntax::body_exprs(t, q) {
                lemma_join(t, p, q, r);
            }
        }
    } else {
        soundness::lemma_expr(t, p);
        neat_expr(t, p);
        if let Ok((_, q)) = syntax::expr(t, p) {
            soundness::lemma_body_exprs(t, q);
            neat_body_exprs(t, q);
            if let Ok((_, r)) = syntax::body_exprs(t, q) {
                lemma_join(t, p, q, r);
            }
        }
    }
}

proof fn neat_definition(t: Seq<SpannedView>, p: int)
    requires
        soundness::ends(t),
        0 <= p < t.len(),
    ensures
        syntax::definition(t, p) matches Ok((_, q)) ==> neat(t, p, q),
    decreases syntax::left(t, p), 5nat,
{
    if syntax::is_symbol(t, p, "define"@) {
        soundness::lemma_define_rest(t, p + 1);
        neat_define_rest(t, p + 1);
        if let Ok((_, q)) = syntax::define_rest(t, p + 1) {
            lemma_token(t, p);
            lemma_join(t, p, p + 1, q);
        }
    } else if syntax::is_symbol(t, p, "define-syntax"@) && syntax::tok(t, p + 1) is Symbol {
        soundness::lemma_expr(t, p + 2);
        neat_expr(t, p + 2);
        if let Ok((_, q)) = syntax::expr(t, p + 2) {
            lemma_token(t, p);
            lemma_token(t, p + 1);
            lemma_join(t, p, p + 1, p + 2);
            lemma_join(t, p, p + 2, q);
        }
    }
}

proof fn neat_define_rest(t: Seq<SpannedView>, p: int)
    requires
        soundness::ends(t),
        0 <= p < t.len(),
    ensures
        syntax::define_rest(t, p) matches Ok((_, q)) ==> neat(t, p, q),
    decreases syntax::left(t, p), 4nat,
{
    if syntax::tok(t, p) is LeftParen {
        if let Ok((_, z)) = syntax::define_rest(t, p) {
            soundness::lemma_formals_rest(t, p + 2);
            neat_formals_rest(t, p + 2);
            let q = syntax::formals_rest(t, p + 2)->Ok_0.1;
            lemma_token(t, p + 1);
            lemma_join(t, p + 1, p + 2, q);
            lemma_wrap(t, p, q + 1);
            soundness::lemma_body(t, q + 1);
            neat_body(t, q + 1);
            lemma_join(t, p, q + 1, z);
        }
    } else if syntax::tok(t, p) is Symbol {
        lemma_token(t, p);
        soundness::lemma_expr(t, p + 1);
        neat_expr(t, p + 1);
        if let Ok((_, q)) = syntax::expr(t, p + 1) {
            lemma_join(t, p, p + 1, q);
        }
    }
}

proof fn neat_top_form(t: Seq<SpannedView>, p: int)
    requires
        soundness::ends(t),
        0 <= p < t.len(),
    ensures
        syntax::top_form(t, p) matches Ok((_, q)) ==> neat(t, p, q),
    decreases syntax::left(t, p), 1nat,
{
    if syntax::tok(t, p) is DatumComment {
        soundness::lemma_datum(t, p + 1);
        neat_datum(t, p + 1);
        if let Ok((_, q)) = syntax::datum(t, p + 1) {
            assert(t[p].token is DatumComment);
            lemma_token(t, p);
            lemma_join(t, p, p + 1, q);
            soundness::lemma_top_form(t, q);
            neat_top_form(t, q);
            if let Ok((_, r)) = syntax::top_form(t, q) {
                lemma_join(t, p, q, r);
            }
        }
    } else if syntax::at_definition(t, p) {
        soundness::lemma_definition(t, p + 1);
        neat_definition(t, p + 1);
        if let Ok((_, z)) = syntax::top_form(t, p) {
            lemma_wrap(t, p, z);
        }
    } else if syntax::tok(t, p) is LeftParen && syntax::is_symbol(t, p + 1, "begin"@) {
        soundness::lemma_top_forms(t, p + 2);
        neat_top_forms(t, p + 2);
        if let Ok((_, z)) = syntax::top_form(t, p) {
            lemma_token(t, p + 1);
            lemma_join(t, p + 1, p + 2, z - 1);
            lemma_wrap(t, p, z);
        }
    } else {
        neat_expr(t, p);
    }
}

proof fn neat_top_forms(t: Seq<SpannedView>, p: int)
    requires
        soundness::ends(t),
        0 <= p < t.len(),
    ensures
        syntax::top_forms(t, p) matches Ok((_, q)) ==> neat(t, p, q),
    decreases syntax::left(t, p), 2nat,
{
    lemma_empty(t, p);
    if !syntax::at_close(t, p) {
        soundness::lemma_top_form(t, p);
        neat_top_form(t, p);
        if let Ok((_, q)) = syntax::top_form(t, p) {
            soundness::lemma_top_forms(t, q);
            neat_top_forms(t, q);
            if let Ok((_, r)) = syntax::top_forms(t, q) {
                lemma_join(t, p, q, r);
            }
        }
    }
}

/// The forms of a program are balanced.
pub proof fn neat_program_from(t: Seq<SpannedView>, p: int)
    requires
        soundness::ends(t),
        0 <= p < t.len(),
    ensures
        syntax::program_from(t, p) matches Ok((_, q)) ==> neat(t, p, q),
    decreases syntax::left(t, p),
{
    lemma_empty(t, p);
    if !(syntax::tok(t, p) is Eof) {
        soundness::lemma_top_form(t, p);
        neat_top_form(t, p);
        if let Ok((_, q)) = syntax::top_form(t, p) {
            soundness::lemma_program_from(t, q);
            neat_program_from(t, q);
            if let Ok((_, r)) = syntax::program_from(t, q) {
                lemma_join(t, p, q, r);
            }
        }
    }
}

// ---- Laws ----

/// A datum, an expression, a body or a top-level form closes what it opens, and
/// nothing else.
pub proof fn law_phrases_are_balanced(t: Seq<SpannedView>, p: int)
    requires
        soundness::ends(t),
        0 <= p < t.len(),
    ensures
        syntax::datum(t, p) matches Ok((_, q)) ==> balanced(t, p, q),
        syntax::expr(t, p) matches Ok((_, q)) ==> balanced(t, p, q),
        syntax::body(t, p) matches Ok((_, q)) ==> balanced(t, p, q),
        syntax::top_form(t, p) matches Ok((_, q)) ==> balanced(t, p, q),
{
    reveal(neat);
    neat_datum(t, p);
    neat_expr(t, p);
    neat_body(t, p);
    neat_top_form(t, p);
}

/// A parenthesized expression ends behind the parenthesis that matches the one
/// before it: what lies between is balanced.
pub proof fn law_lists_end_at_their_parenthesis(t: Seq<SpannedView>, p: int)
    requires
        soundness::ends(t),
        0 <= p < t.len(),
    ensures
        syntax::list_expr(t, p) matches Ok((_, q)) ==> {
            &&& p < q
            &&& balanced(t, p, q - 1)
            &&& syntax::tok(t, q - 1) is RightParen
        },
{
    reveal(neat);
    neat_list_expr(t, p);
}

/// Whether the level of the first tokens never falls below `-h`.
spec fn stays(t: Seq<SpannedView>, h: int) -> bool {
    forall|k: int| 0 <= k <= t.len() ==> #[trigger] level(t, 0, k) + h >= 0
}

/// The level of tokens behind one more token.
proof fn lemma_level_with(first: SpannedView, s: Seq<SpannedView>, k: int)
    requires
        0 <= k <= s.len(),
    ensures
        level(seq![first] + s, 0, k + 1) == weight(first.token) + level(s, 0, k),
    decreases k,
{
    let t = seq![first] + s;
    if k == 0 {
        reveal_with_fuel(level, 2);
    } else {
        lemma_level_with(first, s, k - 1);
        assert(syntax::tok(t, k) == syntax::tok(s, k - 1));
    }
}

/// The level of the tokens from an index on.
proof fn lemma_level_tail(t: Seq<SpannedView>, n: int, k: int)
    requires
        0 <= n <= n + k <= t.len(),
    ensures
        level(t.subrange(n, t.len() as int), 0, k) == level(t, n, n + k),
    decreases k,
{
    if k > 0 {
        lemma_level_tail(t, n, k - 1);
        assert(syntax::tok(t.subrange(n, t.len() as int), k - 1) == syntax::tok(t, n + k - 1));
    }
}

/// With one more token before them, tokens are as high above a level.
proof fn lemma_stays_with(first: SpannedView, s: Seq<SpannedView>, h: int)
    ensures
        stays(seq![first] + s, h) <==> h >= 0 && stays(s, h + weight(first.token)),
{
    let t = seq![first] + s;
    assert(level(t, 0, 0) == 0);
    if h >= 0 && stays(s, h + weight(first.token)) {
        assert forall|k: int| 0 <= k <= t.len() implies #[trigger] level(t, 0, k) + h >= 0 by {
            if k > 0 {
                lemma_level_with(first, s, k - 1);
            }
        }
    }
    if stays(t, h) {
        assert forall|k: int| 0 <= k <= s.len() implies #[trigger] level(s, 0, k) + (h + weight(
            first.token,
        )) >= 0 by {
            lemma_level_with(first, s, k);
            assert(level(t, 0, k + 1) + h >= 0);
        }
    }
}

/// Datum comments are balanced: the tokens end at the level that they end at
/// without them, and fall no lower.
proof fn lemma_comments_are_balanced(t: Seq<SpannedView>, h: int)
    requires
        soundness::ends(t),
    ensures
        level(t, 0, t.len() as int) == level(
            uncommented(t),
            0,
            uncommented(t).len() as int,
        ),
        h >= 0 && stays(uncommented(t), h) ==> stays(t, h),
    decreases t.len(),
{
    if t.len() == 1 {
        comments::lemma_end_only(t);
    } else {
        let first = t[0];
        let others = t.subrange(1, t.len() as int);
        let rest = uncommented(others);
        assert(t =~= seq![first] + others);
        lemma_level_with(first, others, others.len() as int);
        lemma_stays_with(first, others, h);
        lemma_comments_are_balanced(others, h + weight(first.token));
        comments::lemma_uncommented_ends(others);
        if first.token is DatumComment && syntax::datum(rest, 0) is Ok {
            let q = syntax::datum(rest, 0)->Ok_0.1;
            let u = rest.subrange(q, rest.len() as int);
            soundness::lemma_datum(rest, 0);
            law_phrases_are_balanced(rest, 0);
            lemma_level(rest, 0, q, rest.len() as int);
            lemma_level_tail(rest, q, u.len() as int);
            if h >= 0 && stays(u, h) {
                assert forall|k: int| 0 <= k <= rest.len() implies #[trigger] level(rest, 0, k) + h
                    >= 0 by {
                    if k > q {
                        lemma_level(rest, 0, q, k);
                        lemma_level_tail(rest, q, k - q);
                        assert(level(u, 0, k - q) + h >= 0);
                    }
                }
            }
        } else {
            lemma_level_with(first, rest, rest.len() as int);
            lemma_stays_with(first, rest, h);
            if h >= 0 && stays(seq![first] + rest, h) {
                assert(level(rest, 0, 0) == 0);
                assert(stays(rest, h + weight(first.token)));
            }
        }
    }
}

/// The tokens of a source that is accepted are balanced: they hold as many
/// parentheses that open a list as such that close one, and no first part of
/// them holds more of the latter.
pub proof fn law_accepted_sources_are_balanced(b: Seq<u8>)
    requires
        syntax::program(b) is Ok || syntax::expression(b) is Ok,
    ensures
        lexical::tokens(b) matches Ok(t) && balanced(t, 0, t.len() as int),
{
    let t = lexical::tokens(b)->Ok_0;
    let u = uncommented(t);
    let n = u.len() - 1;
    laws::law_single_trailing_eof(b);
    comments::lemma_uncommented_ends(t);
    comments::lemma_early_eof(t);
    soundness::lemma_program_from(u, 0);
    soundness::lemma_expr(u, 0);
    soundness::lemma_program_end(u, 0);
    reveal(neat);
    neat_program_from(u, 0);
    neat_expr(u, 0);
    assert(balanced(u, 0, n)) by {
        if let Ok((_, q)) = syntax::program_from(u, 0) {
            assert(u[q].token is Eof);
        } else {
            let q = syntax::expr(u, 0)->Ok_0.1;
            assert(u[q].token is Eof);
        }
    }
    assert(level(u, 0, n + 1) == level(u, 0, n) + weight(u[n].token));
    assert(stays(u, 0)) by {
        assert forall|k: int| 0 <= k <= u.len() implies #[trigger] level(u, 0, k) + 0 >= 0 by {}
    }
    lemma_comments_are_balanced(t, 0);
    assert forall|k: int| 0 <= k <= t.len() implies #[trigger] level(t, 0, k) >= 0 by {
        assert(level(t, 0, k) + 0 >= 0);
    }
}

} // verus!
