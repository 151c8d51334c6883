//! Which error a phrase is rejected with: the one in its first part that cannot
//! be read, or, where a part is missing, the one that says so at the token that
//! stands in its place.

use crate::comments;
use crate::forms;
use crate::laws;
use crate::lexical;
use crate::lexical::{ErrorView, SpannedView, TokenView};
use crate::model::{
    BindingView, BodyView, CaseClauseView, CondClauseView, DatumView, DefinitionView, ExprView,
    FormalsView, MvBindingView, TopLevelFormView,
};
use crate::soundness;
use crate::syntax;
use crate::syntax::Form;
use vstd::prelude::*;

verus! {

/// The error `message` at the token with index `p`.
pub open spec fn error(t: Seq<SpannedView>, p: int, message: Seq<char>) -> ErrorView {
    ErrorView { message, span: t[p].span }
}

/// Whether a list ends at `p`, by a parenthesis or with the input.
pub open spec fn list_ends(t: Seq<SpannedView>, p: int) -> bool {
    syntax::tok(t, p) is RightParen || syntax::tok(t, p) is Eof
}

/// Whether a datum comment that is whole stands at `p`.
pub open spec fn comment_stands(t: Seq<SpannedView>, p: int) -> bool {
    syntax::tok(t, p) is DatumComment && syntax::datum(t, p + 1) is Ok
}

// ---- Single tokens ----

/// Neither an expression nor a datum begins with a closing parenthesis, a dot or
/// the end of input; an error in a datum is the error of the quotation, the
/// vector or the bytevector.
pub proof fn law_no_beginning(t: Seq<SpannedView>, p: int)
    ensures
        syntax::tok(t, p) is RightParen ==> syntax::expr(t, p) == Err::<(ExprView, int), _>(
            error(t, p, "unexpected )"@),
        ) && syntax::datum(t, p) == Err::<(DatumView, int), _>(error(t, p, "unexpected )"@)),
        syntax::tok(t, p) is Dot ==> syntax::expr(t, p) == Err::<(ExprView, int), _>(
            error(t, p, "unexpected ."@),
        ) && syntax::datum(t, p) == Err::<(DatumView, int), _>(error(t, p, "unexpected ."@)),
        syntax::tok(t, p) is Eof ==> syntax::expr(t, p) == Err::<(ExprView, int), _>(
            error(t, p, "unexpected end of input"@),
        ) && syntax::datum(t, p) == Err::<(DatumView, int), _>(
            error(t, p, "unexpected end of input"@),
        ),
        forall|e: ErrorView|
            (syntax::tok(t, p) is Quote || syntax::tok(t, p) is QuasiQuote || syntax::tok(
                t,
                p,
            ) is Unquote || syntax::tok(t, p) is UnquoteSplicing) && syntax::datum(t, p + 1)
                == Err::<(DatumView, int), _>(e) ==> syntax::expr(t, p) == Err::<
                (ExprView, int),
                _,
            >(e) && syntax::datum(t, p) == Err::<(DatumView, int), _>(e),
        forall|e: ErrorView|
            (syntax::tok(t, p) is VectorPrefix || syntax::tok(t, p) is ByteVectorPrefix)
                && syntax::datum(t, p) == Err::<(DatumView, int), _>(e) ==> syntax::expr(t, p)
                == Err::<(ExprView, int), _>(e),
{
}

// ---- Lists of parts ----

/// Whether reading expressions from `p` on comes to one that is rejected.
pub open spec fn exprs_fail(t: Seq<SpannedView>, p: int, e: ErrorView) -> bool {
    exists|es: Seq<ExprView>, q: int| #[trigger]
        forms::reads_exprs(t, p, es, q) && !list_ends(t, q) && !comment_stands(t, q)
            && syntax::expr(t, q) == Err::<(ExprView, int), _>(e)
}

/// Whether reading data from `p` on comes to one that is rejected.
pub open spec fn data_fail(t: Seq<SpannedView>, p: int, e: ErrorView) -> bool {
    exists|ds: Seq<DatumView>, q: int| #[trigger]
        forms::reads_data(t, p, ds, q) && !list_ends(t, q) && syntax::datum(t, q) == Err::<
            (DatumView, int),
            _,
        >(e)
}

/// Whether reading a body from `p` on comes to a definition or an expression
/// that is rejected, or to its end before any expression.
pub open spec fn body_fails(t: Seq<SpannedView>, p: int, e: ErrorView) -> bool {
    exists|ds: Seq<DefinitionView>, r: int| #[trigger]
        forms::reads_definitions(t, p, ds, r) && !comment_stands(t, r) && {
            ||| (forms::opens(t, r, "define"@) || forms::opens(t, r, "define-syntax"@))
                && syntax::top_form(t, r) == Err::<(TopLevelFormView, int), _>(e)
            ||| !forms::opens(t, r, "define"@) && !forms::opens(t, r, "define-syntax"@)
                && list_ends(t, r) && e == error(t, r, "body requires at least one expression"@)
            ||| !forms::opens(t, r, "define"@) && !forms::opens(t, r, "define-syntax"@)
                && exprs_fail(t, r, e)
        }
}

/// Whether parameters from `p` on come to something that is no symbol where one
/// has to stand.
pub open spec fn parameters_fail(t: Seq<SpannedView>, p: int, e: ErrorView) -> bool {
    exists|names: Seq<Seq<char>>|
        {
            let n = p + names.len();
            &&& #[trigger] forms::names_stand(t, p, names)
            &&& !list_ends(t, n)
            &&& !(syntax::tok(t, n) is Symbol)
            &&& syntax::tok(t, n) is Dot ==> !(syntax::tok(t, n + 1) is Symbol) && e == error(
                t,
                n + 1,
                "expected identifier"@,
            )
            &&& !(syntax::tok(t, n) is Dot) ==> e == error(t, n, "expected identifier"@)
        }
}

/// Whether the parameters from `p` on are whole but lack their parenthesis.
pub open spec fn parameters_open(
    t: Seq<SpannedView>,
    p: int,
    message: Seq<char>,
    e: ErrorView,
) -> bool {
    exists|f: FormalsView, q: int| #[trigger]
        forms::parameters_stand(t, p, f, q) && !(syntax::tok(t, q) is RightParen) && (f.rest is None
            ==> syntax::tok(t, q) is Eof) && e == error(t, q, message)
}

/// Whether what stands at `p` is rejected as formals.
pub open spec fn formals_fail(t: Seq<SpannedView>, p: int, e: ErrorView) -> bool {
    ||| !(syntax::tok(t, p) is LeftParen) && !(syntax::tok(t, p) is Symbol) && e == error(
        t,
        p,
        "expected formals"@,
    )
    ||| syntax::tok(t, p) is LeftParen && (parameters_fail(t, p + 1, e) || parameters_open(
        t,
        p + 1,
        "expected ) to close formals"@,
        e,
    ))
}

/// Whether what stands at `p` is rejected as a list of a name and an expression.
pub open spec fn binding_fails(t: Seq<SpannedView>, p: int, e: ErrorView) -> bool {
    if !(syntax::tok(t, p) is LeftParen) {
        e == error(t, p, "expected ( to open binding"@)
    } else if !(syntax::tok(t, p + 1) is Symbol) {
        e == error(t, p + 1, "expected identifier"@)
    } else {
        match syntax::expr(t, p + 2) {
            Err(f) => e == f,
            Ok((_, r)) => !(syntax::tok(t, r) is RightParen) && e == error(
                t,
                r,
                "expected ) to close binding"@,
            ),
        }
    }
}

/// Whether what stands at `p` is rejected as a list of bindings.
pub open spec fn bindings_fail(t: Seq<SpannedView>, p: int, e: ErrorView) -> bool {
    ||| !(syntax::tok(t, p) is LeftParen) && e == error(t, p, "expected ( to open bindings"@)
    ||| syntax::tok(t, p) is LeftParen && exists|bs: Seq<BindingView>, q: int| #[trigger]
        forms::reads_bindings(t, p + 1, bs, q) && {
            ||| syntax::tok(t, q) is Eof && e == error(t, q, "expected ) to close bindings"@)
            ||| !list_ends(t, q) && binding_fails(t, q, e)
        }
}

/// Whether what stands at `p` is rejected as a list of formals and an
/// expression.
pub open spec fn mv_binding_fails(t: Seq<SpannedView>, p: int, e: ErrorView) -> bool {
    ||| !(syntax::tok(t, p) is LeftParen) && e == error(t, p, "expected ( to open mv binding"@)
    ||| syntax::tok(t, p) is LeftParen && formals_fail(t, p + 1, e)
    ||| syntax::tok(t, p) is LeftParen && exists|f: FormalsView, q: int| #[trigger]
        forms::formals_stand(t, p + 1, f, q) && match syntax::expr(t, q) {
            Err(g) => e == g,
            Ok((_, r)) => !(syntax::tok(t, r) is RightParen) && e == error(
                t,
                r,
                "expected ) to close mv binding"@,
            ),
        }
}

/// Whether what stands at `p` is rejected as a list of multiple-values bindings.
pub open spec fn mv_bindings_fail(t: Seq<SpannedView>, p: int, e: ErrorView) -> bool {
    ||| !(syntax::tok(t, p) is LeftParen) && e == error(t, p, "expected ( to open mv bindings"@)
    ||| syntax::tok(t, p) is LeftParen && exists|bs: Seq<MvBindingView>, q: int| #[trigger]
        forms::reads_mv_bindings(t, p + 1, bs, q) && {
            ||| syntax::tok(t, q) is Eof && e == error(t, q, "expected ) to close mv bindings"@)
            ||| !list_ends(t, q) && mv_binding_fails(t, q, e)
        }
}

/// Whether the expressions from `p` on are rejected, or lack the parenthesis
/// behind them.
pub open spec fn rest_fails(
    t: Seq<SpannedView>,
    p: int,
    message: Seq<char>,
    e: ErrorView,
) -> bool {
    ||| exprs_fail(t, p, e)
    ||| exists|es: Seq<ExprView>, q: int| #[trigger]
        forms::reads_exprs(t, p, es, q) && syntax::tok(t, q) is Eof && e == error(t, q, message)
}

/// Whether the expression at `p` is rejected, or lacks the parenthesis behind
/// it.
pub open spec fn last_fails(
    t: Seq<SpannedView>,
    p: int,
    message: Seq<char>,
    e: ErrorView,
) -> bool {
    match syntax::expr(t, p) {
        Err(f) => e == f,
        Ok((_, q)) => !(syntax::tok(t, q) is RightParen) && e == error(t, q, message),
    }
}

/// Whether the body from `p` on is rejected, or lacks the parenthesis behind it.
pub open spec fn last_body_fails(
    t: Seq<SpannedView>,
    p: int,
    message: Seq<char>,
    e: ErrorView,
) -> bool {
    ||| body_fails(t, p, e)
    ||| exists|body: BodyView, q: int| #[trigger]
        forms::reads_body_parts(t, p, body, q) && syntax::tok(t, q) is Eof && e == error(
            t,
            q,
            message,
        )
}

/// Whether what stands at `p` is rejected as a clause of `cond`.
pub open spec fn cond_clause_fails(t: Seq<SpannedView>, p: int, e: ErrorView) -> bool {
    if !(syntax::tok(t, p) is LeftParen) {
        e == error(t, p, "expected ( to open cond clause"@)
    } else if forms::opens(t, p, "else"@) {
        rest_fails(t, p + 2, "expected ) to close else clause"@, e)
    } else {
        match syntax::expr(t, p + 1) {
            Err(f) => e == f,
            Ok((_, q)) => if syntax::tok(t, q) == TokenView::Symbol("=>"@) {
                last_fails(t, q + 1, "expected ) to close => clause"@, e)
            } else {
                rest_fails(t, q, "expected ) to close cond clause"@, e)
            },
        }
    }
}

/// Whether what stands at `p` is rejected as a clause of `case`.
pub open spec fn case_clause_fails(t: Seq<SpannedView>, p: int, e: ErrorView) -> bool {
    if !(syntax::tok(t, p) is LeftParen) {
        e == error(t, p, "expected ( to open case clause"@)
    } else if forms::opens(t, p, "else"@) {
        rest_fails(t, p + 2, "expected ) to close else clause"@, e)
    } else if !(syntax::tok(t, p + 1) is LeftParen) {
        e == error(t, p + 1, "expected ( to open datum list"@)
    } else {
        ||| data_fail(t, p + 2, e)
        ||| exists|ds: Seq<DatumView>, q: int| #[trigger]
            forms::reads_data(t, p + 2, ds, q) && {
                ||| syntax::tok(t, q) is Eof && e == error(t, q, "expected ) to close datum list"@)
                ||| syntax::tok(t, q) is RightParen && rest_fails(
                    t,
                    q + 1,
                    "expected ) to close case clause"@,
                    e,
                )
            }
    }
}

// ---- How the parts fail ----

proof fn lemma_exprs_fail(t: Seq<SpannedView>, p: int, e: ErrorView)
    requires
        soundness::ends(t),
        0 <= p,
        exprs_fail(t, p, e),
    ensures
        syntax::exprs(t, p) == Err::<(Seq<ExprView>, int), _>(e),
        syntax::body_exprs(t, p) == Err::<(Seq<ExprView>, int), _>(e),
{
    let (es, q) = choose|es: Seq<ExprView>, q: int| #[trigger]
        forms::reads_exprs(t, p, es, q) && !list_ends(t, q) && !comment_stands(t, q)
            && syntax::expr(t, q) == Err::<(ExprView, int), _>(e);
    forms::lemma_exprs(t, p, es, q);
    forms::lemma_body_exprs(t, p, es, q);
    assert(syntax::exprs(t, q) == Err::<(Seq<ExprView>, int), _>(e));
    assert(syntax::body_exprs(t, q) == Err::<(Seq<ExprView>, int), _>(e));
}

proof fn lemma_rest_fails(t: Seq<SpannedView>, p: int, message: Seq<char>, e: ErrorView)
    requires
        soundness::ends(t),
        0 <= p,
        rest_fails(t, p, message, e),
    ensures
        syntax::closed(t, syntax::exprs(t, p), message) == Err::<(Seq<ExprView>, int), _>(e),
{
    if exprs_fail(t, p, e) {
        lemma_exprs_fail(t, p, e);
    } else {
        let (es, q) = choose|es: Seq<ExprView>, q: int| #[trigger]
            forms::reads_exprs(t, p, es, q) && syntax::tok(t, q) is Eof && e == error(
                t,
                q,
                message,
            );
        forms::lemma_exprs(t, p, es, q);
        assert(syntax::exprs(t, q) is Ok);
    }
}

proof fn lemma_body_fails(t: Seq<SpannedView>, p: int, e: ErrorView)
    requires
        soundness::ends(t),
        0 <= p,
        body_fails(t, p, e),
    ensures
        syntax::body(t, p) == Err::<(BodyView, int), _>(e),
{
    let (ds, r) = choose|ds: Seq<DefinitionView>, r: int| #[trigger]
        forms::reads_definitions(t, p, ds, r) && !comment_stands(t, r) && {
            ||| (forms::opens(t, r, "define"@) || forms::opens(t, r, "define-syntax"@))
                && syntax::top_form(t, r) == Err::<(TopLevelFormView, int), _>(e)
            ||| !forms::opens(t, r, "define"@) && !forms::opens(t, r, "define-syntax"@)
                && list_ends(t, r) && e == error(t, r, "body requires at least one expression"@)
            ||| !forms::opens(t, r, "define"@) && !forms::opens(t, r, "define-syntax"@)
                && exprs_fail(t, r, e)
        };
    forms::lemma_definitions(t, p, ds, r);
    if syntax::at_definition(t, r) {
        assert(syntax::definitions(t, r) == Err::<(Seq<DefinitionView>, int), _>(e));
    } else {
        if syntax::tok(t, r) is DatumComment {
            lemma_exprs_fail(t, r, e);
            assert(syntax::definitions(t, r) is Err);
        } else {
            assert(syntax::definitions(t, r) == Ok::<_, ErrorView>(
                (Seq::<DefinitionView>::empty(), r),
            ));
            if list_ends(t, r) {
                if exprs_fail(t, r, e) {
                    lemma_exprs_fail(t, r, e);
                }
            } else {
                lemma_exprs_fail(t, r, e);
            }
        }
    }
}

proof fn lemma_last_body_fails(t: Seq<SpannedView>, p: int, message: Seq<char>, e: ErrorView)
    requires
        soundness::ends(t),
        0 <= p,
        last_body_fails(t, p, message, e),
    ensures
        syntax::closed(t, syntax::body(t, p), message) == Err::<(BodyView, int), _>(e),
{
    if body_fails(t, p, e) {
        lemma_body_fails(t, p, e);
    } else {
        let (body, q) = choose|body: BodyView, q: int| #[trigger]
            forms::reads_body_parts(t, p, body, q) && syntax::tok(t, q) is Eof && e == error(
                t,
                q,
                message,
            );
        forms::lemma_body(t, p, body, q);
    }
}

proof fn lemma_data_fail(t: Seq<SpannedView>, p: int, e: ErrorView)
    requires
        soundness::ends(t),
        0 <= p,
        data_fail(t, p, e),
    ensures
        syntax::data(t, p) == Err::<(Seq<DatumView>, int), _>(e),
{
    let (ds, q) = choose|ds: Seq<DatumView>, q: int| #[trigger]
        forms::reads_data(t, p, ds, q) && !list_ends(t, q) && syntax::datum(t, q) == Err::<
            (DatumView, int),
            _,
        >(e);
    forms::lemma_data(t, p, ds, q);
    assert(syntax::data(t, q) == Err::<(Seq<DatumView>, int), _>(e));
}

/// Names before something that is rejected.
proof fn lemma_names(t: Seq<SpannedView>, p: int, names: Seq<Seq<char>>)
    requires
        0 <= p,
        forms::names_stand(t, p, names),
    ensures
        syntax::formals_rest(t, p) == syntax::prepend_formals(
            names,
            syntax::formals_rest(t, p + names.len()),
        ),
    decreases names.len(),
{
    if names.len() == 0 {
        if let Ok((f, q)) = syntax::formals_rest(t, p) {
            assert(names + f.fixed =~= f.fixed);
        }
    } else {
        let others = names.drop_first();
        assert forall|i: int| 0 <= i < others.len() implies syntax::tok(t, p + 1 + i)
            == TokenView::Symbol(#[trigger] others[i]) by {
            assert(others[i] == names[i + 1]);
        }
        lemma_names(t, p + 1, others);
        assert(syntax::tok(t, p + 0) == TokenView::Symbol(names[0]));
        if let Ok((f, q)) = syntax::formals_rest(t, p + names.len()) {
            assert(seq![names[0]] + (others + f.fixed) =~= names + f.fixed);
        }
    }
}

proof fn lemma_parameters_fail(t: Seq<SpannedView>, p: int, e: ErrorView)
    requires
        0 <= p,
        parameters_fail(t, p, e),
    ensures
        syntax::formals_rest(t, p) == Err::<(FormalsView, int), _>(e),
{
    let names = choose|names: Seq<Seq<char>>|
        {
            let n = p + names.len();
            &&& #[trigger] forms::names_stand(t, p, names)
            &&& !list_ends(t, n)
            &&& !(syntax::tok(t, n) is Symbol)
            &&& syntax::tok(t, n) is Dot ==> !(syntax::tok(t, n + 1) is Symbol) && e == error(
                t,
                n + 1,
                "expected identifier"@,
            )
            &&& !(syntax::tok(t, n) is Dot) ==> e == error(t, n, "expected identifier"@)
        };
    lemma_names(t, p, names);
    assert(syntax::formals_rest(t, p + names.len()) == Err::<(FormalsView, int), _>(e));
}

proof fn lemma_parameters_open(t: Seq<SpannedView>, p: int, message: Seq<char>, e: ErrorView)
    requires
        0 <= p,
        parameters_open(t, p, message, e),
    ensures
        syntax::closed(t, syntax::formals_rest(t, p), message) == Err::<(FormalsView, int), _>(e),
{
    let (f, q) = choose|f: FormalsView, q: int| #[trigger]
        forms::parameters_stand(t, p, f, q) && !(syntax::tok(t, q) is RightParen) && (f.rest is None
            ==> syntax::tok(t, q) is Eof) && e == error(t, q, message);
    lemma_names(t, p, f.fixed);
    assert(syntax::formals_rest(t, p + f.fixed.len()) matches Ok((_, r)) && r == q);
}

proof fn lemma_formals_fail(t: Seq<SpannedView>, p: int, e: ErrorView)
    requires
        0 <= p,
        formals_fail(t, p, e),
    ensures
        syntax::formals(t, p) == Err::<(FormalsView, int), _>(e),
{
    if syntax::tok(t, p) is LeftParen {
        if parameters_fail(t, p + 1, e) {
            lemma_parameters_fail(t, p + 1, e);
        } else {
            lemma_parameters_open(t, p + 1, "expected ) to close formals"@, e);
        }
    }
}

proof fn lemma_bindings_fail(t: Seq<SpannedView>, p: int, e: ErrorView)
    requires
        soundness::ends(t),
        0 <= p,
        bindings_fail(t, p, e),
    ensures
        syntax::bindings(t, p) == Err::<(Seq<BindingView>, int), _>(e),
{
    if syntax::tok(t, p) is LeftParen {
        let (bs, q) = choose|bs: Seq<BindingView>, q: int| #[trigger]
            forms::reads_bindings(t, p + 1, bs, q) && {
                ||| syntax::tok(t, q) is Eof && e == error(t, q, "expected ) to close bindings"@)
                ||| !list_ends(t, q) && binding_fails(t, q, e)
            };
        forms::lemma_bindings(t, p + 1, bs, q);
        if !(syntax::tok(t, q) is Eof) {
            assert(syntax::binding(t, q) == Err::<(BindingView, int), _>(e));
        }
        assert(syntax::binding_items(t, q) is Ok || syntax::binding_items(t, q) == Err::<
            (Seq<BindingView>, int),
            _,
        >(e));
    }
}

proof fn lemma_mv_binding_fails(t: Seq<SpannedView>, p: int, e: ErrorView)
    requires
        soundness::ends(t),
        0 <= p,
        mv_binding_fails(t, p, e),
    ensures
        syntax::mv_binding(t, p) == Err::<(MvBindingView, int), _>(e),
{
    if syntax::tok(t, p) is LeftParen {
        if formals_fail(t, p + 1, e) {
            lemma_formals_fail(t, p + 1, e);
        } else {
            let (f, q) = choose|f: FormalsView, q: int| #[trigger]
                forms::formals_stand(t, p + 1, f, q) && match syntax::expr(t, q) {
                    Err(g) => e == g,
                    Ok((_, r)) => !(syntax::tok(t, r) is RightParen) && e == error(
                        t,
                        r,
                        "expected ) to close mv binding"@,
                    ),
                };
            forms::lemma_formals(t, p + 1, f, q);
        }
    }
}

proof fn lemma_mv_bindings_fail(t: Seq<SpannedView>, p: int, e: ErrorView)
    requires
        soundness::ends(t),
        0 <= p,
        mv_bindings_fail(t, p, e),
    ensures
        syntax::mv_bindings(t, p) == Err::<(Seq<MvBindingView>, int), _>(e),
{
    if syntax::tok(t, p) is LeftParen {
        let (bs, q) = choose|bs: Seq<MvBindingView>, q: int| #[trigger]
            forms::reads_mv_bindings(t, p + 1, bs, q) && {
                ||| syntax::tok(t, q) is Eof && e == error(t, q, "expected ) to close mv bindings"@)
                ||| !list_ends(t, q) && mv_binding_fails(t, q, e)
            };
        forms::lemma_mv_bindings(t, p + 1, bs, q);
        if !(syntax::tok(t, q) is Eof) {
            lemma_mv_binding_fails(t, q, e);
        }
        assert(syntax::mv_binding_items(t, q) is Ok || syntax::mv_binding_items(t, q) == Err::<
            (Seq<MvBindingView>, int),
            _,
        >(e));
    }
}

proof fn lemma_cond_clause_fails(t: Seq<SpannedView>, p: int, e: ErrorView)
    requires
        soundness::ends(t),
        0 <= p,
        cond_clause_fails(t, p, e),
    ensures
        syntax::cond_clause(t, p) == Err::<(CondClauseView, int), _>(e),
{
    if !(syntax::tok(t, p) is LeftParen) {
    } else if forms::opens(t, p, "else"@) {
        lemma_rest_fails(t, p + 2, "expected ) to close else clause"@, e);
    } else {
        forms::lemma_step(t, p + 1);
        if let Ok((_, q)) = syntax::expr(t, p + 1) {
            if syntax::tok(t, q) == TokenView::Symbol("=>"@) {
            } else {
                lemma_rest_fails(t, q, "expected ) to close cond clause"@, e);
            }
        }
    }
}

proof fn lemma_case_clause_fails(t: Seq<SpannedView>, p: int, e: ErrorView)
    requires
        soundness::ends(t),
        0 <= p,
        case_clause_fails(t, p, e),
    ensures
        syntax::case_clause(t, p) == Err::<(CaseClauseView, int), _>(e),
{
    if !(syntax::tok(t, p) is LeftParen) {
    } else if forms::opens(t, p, "else"@) {
        lemma_rest_fails(t, p + 2, "expected ) to close else clause"@, e);
    } else if syntax::tok(t, p + 1) is LeftParen {
        if data_fail(t, p + 2, e) {
            lemma_data_fail(t, p + 2, e);
        } else {
            let (ds, q) = choose|ds: Seq<DatumView>, q: int| #[trigger]
                forms::reads_data(t, p + 2, ds, q) && {
                    ||| syntax::tok(t, q) is Eof && e == error(
                        t,
                        q,
                        "expected ) to close datum list"@,
                    )
                    ||| syntax::tok(t, q) is RightParen && rest_fails(
                        t,
                        q + 1,
                        "expected ) to close case clause"@,
                        e,
                    )
                };
            forms::lemma_data(t, p + 2, ds, q);
            assert(syntax::data(t, q) is Ok);
            if syntax::tok(t, q) is RightParen {
                lemma_rest_fails(t, q + 1, "expected ) to close case clause"@, e);
            }
        }
    }
}

// ---- Forms ----

/// The error of `if`: that of its first part that is rejected, or that its
/// parenthesis does not follow the third.
pub proof fn law_if_errors(t: Seq<SpannedView>, p: int, e: ErrorView)
    requires
        soundness::ends(t),
        0 <= p,
        forms::opens(t, p, "if"@),
        match syntax::expr(t, p + 2) {
            Err(f) => e == f,
            Ok((_, q)) => match syntax::expr(t, q) {
                Err(f) => e == f,
                Ok((_, r)) => !(syntax::tok(t, r) is RightParen) && last_fails(
                    t,
                    r,
                    "expected ) to close if"@,
                    e,
                ),
            },
        },
    ensures
        syntax::expr(t, p) == Err::<(ExprView, int), _>(e),
{
    forms::lemma_form(t, p, Form::If);
    forms::lemma_step(t, p + 2);
    if let Ok((_, q)) = syntax::expr(t, p + 2) {
        forms::lemma_step(t, q);
    }
}

/// The errors of `quote` and `set!`.
pub proof fn law_quote_and_set_errors(t: Seq<SpannedView>, p: int, e: ErrorView)
    ensures
        forms::opens(t, p, "quote"@) && (match syntax::datum(t, p + 2) {
            Err(f) => e == f,
            Ok((_, q)) => !(syntax::tok(t, q) is RightParen) && e == error(
                t,
                q,
                "expected ) to close quote"@,
            ),
        }) ==> syntax::expr(t, p) == Err::<(ExprView, int), _>(e),
        forms::opens(t, p, "set!"@) && !(syntax::tok(t, p + 2) is Symbol) ==> syntax::expr(t, p)
            == Err::<(ExprView, int), _>(error(t, p + 2, "expected identifier"@)),
        forms::opens(t, p, "set!"@) && syntax::tok(t, p + 2) is Symbol && last_fails(
            t,
            p + 3,
            "expected ) to close set!"@,
            e,
        ) ==> syntax::expr(t, p) == Err::<(ExprView, int), _>(e),
{
    if forms::opens(t, p, "quote"@) {
        forms::lemma_form(t, p, Form::Quote);
    }
    if forms::opens(t, p, "set!"@) {
        forms::lemma_form(t, p, Form::SetBang);
    }
}

/// The errors of `and`, `or`, `begin`, `when` and `unless`.
pub proof fn law_sequence_errors(t: Seq<SpannedView>, p: int, e: ErrorView)
    requires
        soundness::ends(t),
        0 <= p,
    ensures
        (forms::opens(t, p, "and"@) || forms::opens(t, p, "or"@)) && rest_fails(
            t,
            p + 2,
            "expected ) to close and/or"@,
            e,
        ) ==> syntax::expr(t, p) == Err::<(ExprView, int), _>(e),
        forms::opens(t, p, "begin"@) && rest_fails(t, p + 2, "expected ) to close begin"@, e)
            ==> syntax::expr(t, p) == Err::<(ExprView, int), _>(e),
        (forms::opens(t, p, "when"@) || forms::opens(t, p, "unless"@)) && (match syntax::expr(
            t,
            p + 2,
        ) {
            Err(f) => e == f,
            Ok((_, q)) => rest_fails(t, q, "expected ) to close when/unless"@, e),
        }) ==> syntax::expr(t, p) == Err::<(ExprView, int), _>(e),
{
    forms::lemma_step(t, p + 2);
    if rest_fails(t, p + 2, "expected ) to close and/or"@, e) {
        lemma_rest_fails(t, p + 2, "expected ) to close and/or"@, e);
    }
    if rest_fails(t, p + 2, "expected ) to close begin"@, e) {
        lemma_rest_fails(t, p + 2, "expected ) to close begin"@, e);
    }
    if let Ok((_, q)) = syntax::expr(t, p + 2) {
        if rest_fails(t, q, "expected ) to close when/unless"@, e) {
            lemma_rest_fails(t, q, "expected ) to close when/unless"@, e);
        }
    }
    if forms::opens(t, p, "and"@) {
        forms::lemma_form(t, p, Form::And);
    }
    if forms::opens(t, p, "or"@) {
        forms::lemma_form(t, p, Form::Or);
    }
    if forms::opens(t, p, "begin"@) {
        forms::lemma_form(t, p, Form::Begin);
    }
    if forms::opens(t, p, "when"@) {
        forms::lemma_form(t, p, Form::When);
    }
    if forms::opens(t, p, "unless"@) {
        forms::lemma_form(t, p, Form::Unless);
    }
}

/// The errors of an application.
pub proof fn law_application_errors(t: Seq<SpannedView>, p: int, e: ErrorView)
    requires
        soundness::ends(t),
        0 <= p,
        syntax::tok(t, p) is LeftParen,
        !(syntax::tok(t, p + 1) is RightParen),
        syntax::tok(t, p + 1) matches TokenView::Symbol(name) ==> !forms::is_keyword(name),
        match syntax::expr(t, p + 1) {
            Err(f) => e == f,
            Ok((_, q)) => rest_fails(t, q, "expected ) to close application"@, e),
        },
    ensures
        syntax::expr(t, p) == Err::<(ExprView, int), _>(e),
{
    forms::lemma_step(t, p + 1);
    if let Ok((_, q)) = syntax::expr(t, p + 1) {
        lemma_rest_fails(t, q, "expected ) to close application"@, e);
    }
    assert(syntax::list_expr(t, p + 1) == syntax::application(t, p + 1));
}

/// The errors of `lambda`.
pub proof fn law_lambda_errors(t: Seq<SpannedView>, p: int, e: ErrorView)
    requires
        soundness::ends(t),
        0 <= p,
        forms::opens(t, p, "lambda"@),
    ensures
        formals_fail(t, p + 2, e) ==> syntax::expr(t, p) == Err::<(ExprView, int), _>(e),
        forall|f: FormalsView, q: int| #[trigger]
            forms::formals_stand(t, p + 2, f, q) && last_body_fails(
                t,
                q,
                "expected ) to close lambda"@,
                e,
            ) ==> syntax::expr(t, p) == Err::<(ExprView, int), _>(e),
{
    forms::lemma_form(t, p, Form::Lambda);
    if formals_fail(t, p + 2, e) {
        lemma_formals_fail(t, p + 2, e);
    }
    assert forall|f: FormalsView, q: int| #[trigger]
        forms::formals_stand(t, p + 2, f, q) && last_body_fails(
            t,
            q,
            "expected ) to close lambda"@,
            e,
        ) implies syntax::expr(t, p) == Err::<(ExprView, int), _>(e) by {
        forms::lemma_formals(t, p + 2, f, q);
        lemma_last_body_fails(t, q, "expected ) to close lambda"@, e);
    }
}

/// The errors of `cond`.
pub proof fn law_cond_errors(
    t: Seq<SpannedView>,
    p: int,
    cs: Seq<CondClauseView>,
    q: int,
    e: ErrorView,
)
    requires
        soundness::ends(t),
        0 <= p,
        forms::opens(t, p, "cond"@),
        forms::reads_cond_clauses(t, p + 2, cs, q),
        syntax::tok(t, q) is Eof && e == error(t, q, "expected ) to close cond"@) || !list_ends(
            t,
            q,
        ) && cond_clause_fails(t, q, e),
    ensures
        syntax::expr(t, p) == Err::<(ExprView, int), _>(e),
{
    forms::lemma_form(t, p, Form::Cond);
    forms::lemma_cond_clauses(t, p + 2, cs, q);
    if !(syntax::tok(t, q) is Eof) {
        lemma_cond_clause_fails(t, q, e);
    }
    assert(syntax::cond_clauses(t, q) is Ok || syntax::cond_clauses(t, q) == Err::<
        (Seq<CondClauseView>, int),
        _,
    >(e));
}

/// The errors of `case`.
pub proof fn law_case_errors(
    t: Seq<SpannedView>,
    p: int,
    cs: Seq<CaseClauseView>,
    r: int,
    e: ErrorView,
)
    requires
        soundness::ends(t),
        0 <= p,
        forms::opens(t, p, "case"@),
        match syntax::expr(t, p + 2) {
            Err(f) => e == f,
            Ok((_, q)) => forms::reads_case_clauses(t, q, cs, r) && (syntax::tok(t, r) is Eof && e
                == error(t, r, "expected ) to close case"@) || !list_ends(t, r)
                && case_clause_fails(t, r, e)),
        },
    ensures
        syntax::expr(t, p) == Err::<(ExprView, int), _>(e),
{
    forms::lemma_form(t, p, Form::Case);
    forms::lemma_step(t, p + 2);
    if let Ok((_, q)) = syntax::expr(t, p + 2) {
        forms::lemma_case_clauses(t, q, cs, r);
        if !(syntax::tok(t, r) is Eof) {
            lemma_case_clause_fails(t, r, e);
        }
        assert(syntax::case_clauses(t, r) is Ok || syntax::case_clauses(t, r) == Err::<
            (Seq<CaseClauseView>, int),
            _,
        >(e));
    }
}

/// Whether a list of bindings, or the body behind it, is rejected.
pub open spec fn binding_form_fails(
    t: Seq<SpannedView>,
    p: int,
    message: Seq<char>,
    e: ErrorView,
) -> bool {
    ||| bindings_fail(t, p, e)
    ||| exists|bs: Seq<BindingView>, r: int| #[trigger]
        forms::reads_bindings(t, p + 1, bs, r) && syntax::tok(t, p) is LeftParen && syntax::tok(
            t,
            r,
        ) is RightParen && last_body_fails(t, r + 1, message, e)
}

proof fn lemma_binding_form_fails(t: Seq<SpannedView>, p: int, message: Seq<char>, e: ErrorView)
    requires
        soundness::ends(t),
        0 <= p,
        binding_form_fails(t, p, message, e),
    ensures
        syntax::binding_form(t, p, message) == Err::<((Seq<BindingView>, BodyView), int), _>(e),
{
    if bindings_fail(t, p, e) {
        lemma_bindings_fail(t, p, e);
    } else {
        let (bs, r) = choose|bs: Seq<BindingView>, r: int| #[trigger]
            forms::reads_bindings(t, p + 1, bs, r) && syntax::tok(t, p) is LeftParen && syntax::tok(
                t,
                r,
            ) is RightParen && last_body_fails(t, r + 1, message, e);
        forms::lemma_bindings(t, p + 1, bs, r);
        assert(syntax::binding_items(t, r) is Ok);
        assert(syntax::bindings(t, p) matches Ok((_, q)) && q == r + 1);
        lemma_last_body_fails(t, r + 1, message, e);
    }
}

/// The errors of `let`, with a name or without one, and of its relatives.
pub proof fn law_let_errors(t: Seq<SpannedView>, p: int, e: ErrorView)
    requires
        soundness::ends(t),
        0 <= p,
    ensures
        forms::opens(t, p, "let"@) && !(syntax::tok(t, p + 2) is Symbol) && binding_form_fails(
            t,
            p + 2,
            "expected ) to close let"@,
            e,
        ) ==> syntax::expr(t, p) == Err::<(ExprView, int), _>(e),
        forms::opens(t, p, "let"@) && syntax::tok(t, p + 2) is Symbol && binding_form_fails(
            t,
            p + 3,
            "expected ) to close let"@,
            e,
        ) ==> syntax::expr(t, p) == Err::<(ExprView, int), _>(e),
        forms::opens(t, p, "let*"@) && binding_form_fails(t, p + 2, "expected ) to close let*"@, e)
            ==> syntax::expr(t, p) == Err::<(ExprView, int), _>(e),
        forms::opens(t, p, "letrec"@) && binding_form_fails(
            t,
            p + 2,
            "expected ) to close letrec"@,
            e,
        ) ==> syntax::expr(t, p) == Err::<(ExprView, int), _>(e),
        forms::opens(t, p, "letrec*"@) && binding_form_fails(
            t,
            p + 2,
            "expected ) to close letrec*"@,
            e,
        ) ==> syntax::expr(t, p) == Err::<(ExprView, int), _>(e),
{
    if forms::opens(t, p, "let"@) {
        forms::lemma_form(t, p, Form::Let);
        if syntax::tok(t, p + 2) is Symbol {
            if binding_form_fails(t, p + 3, "expected ) to close let"@, e) {
                lemma_binding_form_fails(t, p + 3, "expected ) to close let"@, e);
            }
        } else if binding_form_fails(t, p + 2, "expected ) to close let"@, e) {
            lemma_binding_form_fails(t, p + 2, "expected ) to close let"@, e);
        }
    }
    if forms::opens(t, p, "let*"@) && binding_form_fails(
        t,
        p + 2,
        "expected ) to close let*"@,
        e,
    ) {
        forms::lemma_form(t, p, Form::LetStar);
        lemma_binding_form_fails(t, p + 2, "expected ) to close let*"@, e);
    }
    if forms::opens(t, p, "letrec"@) && binding_form_fails(
        t,
        p + 2,
        "expected ) to close letrec"@,
        e,
    ) {
        forms::lemma_form(t, p, Form::LetRec);
        lemma_binding_form_fails(t, p + 2, "expected ) to close letrec"@, e);
    }
    if forms::opens(t, p, "letrec*"@) && binding_form_fails(
        t,
        p + 2,
        "expected ) to close letrec*"@,
        e,
    ) {
        forms::lemma_form(t, p, Form::LetRecStar);
        lemma_binding_form_fails(t, p + 2, "expected ) to close letrec*"@, e);
    }
}

/// The errors of `let-values` and `let*-values`.
pub proof fn law_let_values_errors(t: Seq<SpannedView>, p: int, e: ErrorView)
    requires
        soundness::ends(t),
        0 <= p,
        forms::opens(t, p, "let-values"@) || forms::opens(t, p, "let*-values"@),
    ensures
        mv_bindings_fail(t, p + 2, e) ==> syntax::expr(t, p) == Err::<(ExprView, int), _>(e),
        forall|bs: Seq<MvBindingView>, r: int| #[trigger]
            forms::reads_mv_bindings(t, p + 3, bs, r) && syntax::tok(t, p + 2) is LeftParen
                && syntax::tok(t, r) is RightParen && last_body_fails(
                t,
                r + 1,
                "expected ) to close"@,
                e,
            ) ==> syntax::expr(t, p) == Err::<(ExprView, int), _>(e),
{
    if forms::opens(t, p, "let-values"@) {
        forms::lemma_form(t, p, Form::LetValues);
    } else {
        forms::lemma_form(t, p, Form::LetStarValues);
    }
    if mv_bindings_fail(t, p + 2, e) {
        lemma_mv_bindings_fail(t, p + 2, e);
    }
    assert forall|bs: Seq<MvBindingView>, r: int| #[trigger]
        forms::reads_mv_bindings(t, p + 3, bs, r) && syntax::tok(t, p + 2) is LeftParen
            && syntax::tok(t, r) is RightParen && last_body_fails(
            t,
            r + 1,
            "expected ) to close"@,
            e,
        ) implies syntax::expr(t, p) == Err::<(ExprView, int), _>(e) by {
        forms::lemma_mv_bindings(t, p + 3, bs, r);
        assert(syntax::mv_binding_items(t, r) is Ok);
        assert(syntax::mv_bindings(t, p + 2) matches Ok((_, q)) && q == r + 1);
        lemma_last_body_fails(t, r + 1, "expected ) to close"@, e);
    }
}

// ---- Definitions and top-level forms ----

/// The errors of a definition.
pub proof fn law_definition_errors(t: Seq<SpannedView>, p: int, e: ErrorView)
    requires
        soundness::ends(t),
        0 <= p,
    ensures
        forms::opens(t, p, "define"@) && !(syntax::tok(t, p + 2) is LeftParen) && !(syntax::tok(
            t,
            p + 2,
        ) is Symbol) ==> syntax::top_form(t, p) == Err::<(TopLevelFormView, int), _>(
            error(t, p + 2, "expected identifier"@),
        ),
        forms::opens(t, p, "define"@) && syntax::tok(t, p + 2) is Symbol && syntax::tok(
            t,
            p + 3,
        ) is Eof ==> syntax::top_form(t, p) == Err::<(TopLevelFormView, int), _>(
            error(t, p + 3, "expected ) to close definition"@),
        ),
        forms::opens(t, p, "define"@) && syntax::tok(t, p + 2) is Symbol && !list_ends(t, p + 3)
            && last_fails(t, p + 3, "expected ) to close definition"@, e) ==> syntax::top_form(t, p)
            == Err::<(TopLevelFormView, int), _>(e),
        forms::opens(t, p, "define"@) && syntax::tok(t, p + 2) is LeftParen && !(syntax::tok(
            t,
            p + 3,
        ) is Symbol) ==> syntax::top_form(t, p) == Err::<(TopLevelFormView, int), _>(
            error(t, p + 3, "expected identifier"@),
        ),
        forms::opens(t, p, "define"@) && syntax::tok(t, p + 2) is LeftParen && syntax::tok(
            t,
            p + 3,
        ) is Symbol && (parameters_fail(t, p + 4, e) || parameters_open(
            t,
            p + 4,
            "expected ) to close (define (name ...)"@,
            e,
        )) ==> syntax::top_form(t, p) == Err::<(TopLevelFormView, int), _>(e),
        forall|f: FormalsView, q: int| #[trigger]
            forms::parameters_stand(t, p + 4, f, q) && forms::opens(t, p, "define"@) && syntax::tok(
                t,
                p + 2,
            ) is LeftParen && syntax::tok(t, p + 3) is Symbol && syntax::tok(t, q) is RightParen
                && last_body_fails(t, q + 1, "expected ) to close definition"@, e)
                ==> syntax::top_form(t, p) == Err::<(TopLevelFormView, int), _>(e),
        forms::opens(t, p, "define-syntax"@) && !(syntax::tok(t, p + 2) is Symbol)
            ==> syntax::top_form(t, p) == Err::<(TopLevelFormView, int), _>(
            error(t, p + 2, "expected identifier"@),
        ),
        forms::opens(t, p, "define-syntax"@) && syntax::tok(t, p + 2) is Symbol && last_fails(
            t,
            p + 3,
            "expected ) to close definition"@,
            e,
        ) ==> syntax::top_form(t, p) == Err::<(TopLevelFormView, int), _>(e),
{
    forms::lemma_definition_words();
    if forms::opens(t, p, "define"@) {
        assert(syntax::definition(t, p + 1) == syntax::define_rest(t, p + 2));
        if syntax::tok(t, p + 2) is LeftParen && syntax::tok(t, p + 3) is Symbol {
            let message = "expected ) to close (define (name ...)"@;
            if parameters_fail(t, p + 4, e) {
                lemma_parameters_fail(t, p + 4, e);
            } else if parameters_open(t, p + 4, message, e) {
                lemma_parameters_open(t, p + 4, message, e);
            }
            assert forall|f: FormalsView, q: int| #[trigger]
                forms::parameters_stand(t, p + 4, f, q) && syntax::tok(t, q) is RightParen
                    && last_body_fails(t, q + 1, "expected ) to close definition"@, e)
                    implies syntax::top_form(t, p) == Err::<(TopLevelFormView, int), _>(e) by {
                forms::lemma_parameters(t, p + 4, f, q);
                lemma_last_body_fails(t, q + 1, "expected ) to close definition"@, e);
            }
        }
    }
}

/// The errors of `begin` at the top level, and of an expression there.
pub proof fn law_top_level_errors(t: Seq<SpannedView>, p: int, e: ErrorView)
    requires
        soundness::ends(t),
        0 <= p,
    ensures
        forall|fs: Seq<TopLevelFormView>, q: int|
            forms::opens(t, p, "begin"@) && #[trigger] forms::reads_forms(t, p + 2, fs, q) && (
            syntax::tok(t, q) is Eof && e == error(t, q, "expected ) to close begin"@)
                || !list_ends(t, q) && syntax::top_form(t, q) == Err::<
                (TopLevelFormView, int),
                _,
            >(e))
                ==> syntax::top_form(t, p) == Err::<(TopLevelFormView, int), _>(e),
        !forms::opens(t, p, "begin"@) && !forms::opens(t, p, "define"@) && !forms::opens(
            t,
            p,
            "define-syntax"@,
        ) && !comment_stands(t, p) && syntax::expr(t, p) == Err::<(ExprView, int), _>(e)
            ==> syntax::top_form(t, p) == Err::<(TopLevelFormView, int), _>(e),
{
    forms::lemma_definition_words();
    assert forall|fs: Seq<TopLevelFormView>, q: int|
        forms::opens(t, p, "begin"@) && #[trigger] forms::reads_forms(t, p + 2, fs, q) && (
        syntax::tok(t, q) is Eof && e == error(t, q, "expected ) to close begin"@) || !list_ends(
            t,
            q,
        ) && syntax::top_form(t, q) == Err::<(TopLevelFormView, int), _>(e))
            implies syntax::top_form(t, p) == Err::<(TopLevelFormView, int), _>(e) by {
        forms::lemma_forms(t, p + 2, fs, q);
        assert(syntax::top_forms(t, q) is Ok || syntax::top_forms(t, q) == Err::<
            (Seq<TopLevelFormView>, int),
            _,
        >(e));
    }
}

/// The first error among the forms of a source is the error of the program; one
/// in its expression is that of the expression.
pub proof fn law_source_errors(
    b: Seq<u8>,
    fs: Seq<TopLevelFormView>,
    q: int,
    e: ErrorView,
)
    requires
        lexical::tokens(b) is Ok,
    ensures
        ({
            let t = syntax::uncommented(lexical::tokens(b)->Ok_0);
            &&& forms::reads_forms(t, 0, fs, q) && !(syntax::tok(t, q) is Eof) && syntax::top_form(
                t,
                q,
            ) == Err::<(TopLevelFormView, int), _>(e) ==> syntax::program(b) == Err::<
                Seq<TopLevelFormView>,
                _,
            >(e)
            &&& syntax::expr(t, 0) == Err::<(ExprView, int), _>(e) ==> syntax::expression(b)
                == Err::<ExprView, _>(e)
        }),
{
    let t = syntax::uncommented(lexical::tokens(b)->Ok_0);
    laws::law_single_trailing_eof(b);
    comments::lemma_uncommented_ends(lexical::tokens(b)->Ok_0);
    if forms::reads_forms(t, 0, fs, q) && !(syntax::tok(t, q) is Eof) && syntax::top_form(t, q)
        == Err::<(TopLevelFormView, int), _>(e) {
        forms::lemma_forms(t, 0, fs, q);
        assert(syntax::program_from(t, q) == Err::<(Seq<TopLevelFormView>, int), _>(e));
    }
}

// ---- Data ----

/// The errors of lists, vectors and bytevectors.
pub proof fn law_datum_errors(
    t: Seq<SpannedView>,
    p: int,
    ds: Seq<DatumView>,
    q: int,
    e: ErrorView,
)
    requires
        soundness::ends(t),
        0 <= p,
        forms::reads_data(t, p + 1, ds, q),
    ensures
        syntax::tok(t, p) is LeftParen && syntax::tok(t, q) is Eof ==> syntax::datum(t, p) == Err::<
            (DatumView, int),
            _,
        >(error(t, q, "expected ) to close list"@)),
        syntax::tok(t, p) is LeftParen && syntax::tok(t, q) is Dot && (match syntax::datum(
            t,
            q + 1,
        ) {
            Err(f) => e == f,
            Ok((_, r)) => !(syntax::tok(t, r) is RightParen) && e == error(
                t,
                r,
                "expected ) to close list"@,
            ),
        }) ==> syntax::datum(t, p) == Err::<(DatumView, int), _>(e),
        syntax::tok(t, p) is LeftParen && !list_ends(t, q) && !(syntax::tok(t, q) is Dot)
            && syntax::datum(t, q) == Err::<(DatumView, int), _>(e) ==> syntax::datum(t, p)
            == Err::<(DatumView, int), _>(e),
        syntax::tok(t, p) is VectorPrefix && syntax::tok(t, q) is Eof ==> syntax::datum(t, p)
            == Err::<(DatumView, int), _>(error(t, q, "expected ) to close vector"@)),
        syntax::tok(t, p) is VectorPrefix && !list_ends(t, q) && syntax::datum(t, q) == Err::<
            (DatumView, int),
            _,
        >(e) ==> syntax::datum(t, p) == Err::<(DatumView, int), _>(e),
        forall|bytes: Seq<u8>|
            syntax::tok(t, p) is ByteVectorPrefix && ds == #[trigger] forms::octet_data(bytes)
                && syntax::tok(t, q) is Eof ==> syntax::datum(t, p) == Err::<(DatumView, int), _>(
                error(t, q, "expected ) to close bytevector"@),
            ),
        forall|bytes: Seq<u8>|
            syntax::tok(t, p) is ByteVectorPrefix && ds == #[trigger] forms::octet_data(bytes)
                && !list_ends(t, q) && syntax::datum(t, q) == Err::<(DatumView, int), _>(e)
                ==> syntax::datum(t, p) == Err::<(DatumView, int), _>(e),
{
    forms::lemma_list(t, p + 1, ds, q);
    forms::lemma_data(t, p + 1, ds, q);
    if syntax::tok(t, q) is Eof {
        assert(syntax::list_rest(t, q) is Ok);
        assert(syntax::data(t, q) is Ok);
    }
    assert forall|bytes: Seq<u8>|
        syntax::tok(t, p) is ByteVectorPrefix && ds == #[trigger] forms::octet_data(bytes)
            && syntax::tok(t, q) is Eof implies syntax::datum(t, p) == Err::<(DatumView, int), _>(
        error(t, q, "expected ) to close bytevector"@),
    ) by {
        forms::lemma_octets(t, p + 1, bytes, q);
        assert(syntax::octets(t, q) is Ok);
    }
    assert forall|bytes: Seq<u8>|
        syntax::tok(t, p) is ByteVectorPrefix && ds == #[trigger] forms::octet_data(bytes)
            && !list_ends(t, q) && syntax::datum(t, q) == Err::<(DatumView, int), _>(e)
            implies syntax::datum(t, p) == Err::<(DatumView, int), _>(e) by {
        forms::lemma_octets(t, p + 1, bytes, q);
        assert(syntax::octets(t, q) == Err::<(Seq<u8>, int), _>(e));
    }
}

} // verus!
