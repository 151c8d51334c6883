//! What a form means, given what its parts mean: each law takes the readings of
//! the parts, however these are spelled, and gives the reading of the whole.

use crate::comments;
use crate::laws;
use crate::lexical;
use crate::lexical::{ErrorView, SpannedView, TokenView};
use crate::model::{
    BindingView, BodyView, CaseClauseView, CondClauseView, DatumView, DefinitionView, ExprView,
    FormalsView, MvBindingView, NumberView, TopLevelFormView,
};
use crate::soundness;
use crate::syntax;
use crate::syntax::Form;
use crate::writing;
use vstd::prelude::*;

verus! {

// ---- Parts one behind the other ----

/// Whether a list that begins with the symbol `name` opens at `p`.
pub open spec fn opens(t: Seq<SpannedView>, p: int, name: Seq<char>) -> bool {
    syntax::tok(t, p) is LeftParen && syntax::tok(t, p + 1) == TokenView::Symbol(name)
}

/// Whether the expressions `es` are read one behind the other from `p` to `q`.
pub open spec fn reads_exprs(t: Seq<SpannedView>, p: int, es: Seq<ExprView>, q: int) -> bool
    decreases es.len(),
{
    if es.len() == 0 {
        p == q
    } else {
        match syntax::expr(t, p) {
            Ok((e, r)) => e == es[0] && reads_exprs(t, r, es.drop_first(), q),
            Err(_) => false,
        }
    }
}

/// Whether the data `ds` are read one behind the other from `p` to `q`.
pub open spec fn reads_data(t: Seq<SpannedView>, p: int, ds: Seq<DatumView>, q: int) -> bool
    decreases ds.len(),
{
    if ds.len() == 0 {
        p == q
    } else {
        match syntax::datum(t, p) {
            Ok((d, r)) => d == ds[0] && reads_data(t, r, ds.drop_first(), q),
            Err(_) => false,
        }
    }
}

/// Whether the top-level forms `fs` are read one behind the other from `p` to
/// `q`.
pub open spec fn reads_forms(
    t: Seq<SpannedView>,
    p: int,
    fs: Seq<TopLevelFormView>,
    q: int,
) -> bool
    decreases fs.len(),
{
    if fs.len() == 0 {
        p == q
    } else {
        match syntax::top_form(t, p) {
            Ok((f, r)) => f == fs[0] && reads_forms(t, r, fs.drop_first(), q),
            Err(_) => false,
        }
    }
}

/// Whether the definitions `ds` are read one behind the other from `p` to `q`.
pub open spec fn reads_definitions(
    t: Seq<SpannedView>,
    p: int,
    ds: Seq<DefinitionView>,
    q: int,
) -> bool
    decreases ds.len(),
{
    if ds.len() == 0 {
        p == q
    } else {
        match syntax::top_form(t, p) {
            Ok((f, r)) => f == TopLevelFormView::Definition(ds[0]) && reads_definitions(
                t,
                r,
                ds.drop_first(),
                q,
            ),
            Err(_) => false,
        }
    }
}

/// Whether the parts of a body are read from `p` to `q`: definitions, then
/// expressions, of which the first begins like no definition.
pub open spec fn reads_body_parts(t: Seq<SpannedView>, p: int, body: BodyView, q: int) -> bool {
    exists|r: int|
        #![trigger reads_exprs(t, r, body.expressions, q)]
        {
            &&& reads_definitions(t, p, body.definitions, r)
            &&& reads_exprs(t, r, body.expressions, q)
            &&& body.expressions.len() > 0
            &&& !opens(t, r, "define"@)
            &&& !opens(t, r, "define-syntax"@)
            &&& !(syntax::tok(t, r) is DatumComment)
        }
}

/// Whether a body is read from `p` up to the parenthesis at `q`.
pub open spec fn reads_body(t: Seq<SpannedView>, p: int, body: BodyView, q: int) -> bool {
    reads_body_parts(t, p, body, q) && syntax::tok(t, q) is RightParen
}

/// Whether the symbols `names` stand one behind the other from `p` on.
pub open spec fn names_stand(t: Seq<SpannedView>, p: int, names: Seq<Seq<char>>) -> bool {
    forall|i: int|
        0 <= i < names.len() ==> syntax::tok(t, p + i) == TokenView::Symbol(#[trigger] names[i])
}

/// Whether the fixed parameters from `p` on, and the parameter for the rest
/// behind a dot, if there is one, end at `q`.
pub open spec fn parameters_stand(t: Seq<SpannedView>, p: int, f: FormalsView, q: int) -> bool {
    let n = p + f.fixed.len();
    &&& names_stand(t, p, f.fixed)
    &&& match f.rest {
        None => q == n,
        Some(rest) => {
            &&& syntax::tok(t, n) is Dot
            &&& syntax::tok(t, n + 1) == TokenView::Symbol(rest)
            &&& q == n + 2
        },
    }
}

/// Whether formals stand from `p` to `q`: a list of parameters, or the one
/// symbol for all arguments.
pub open spec fn formals_stand(t: Seq<SpannedView>, p: int, f: FormalsView, q: int) -> bool {
    ||| syntax::tok(t, p) is LeftParen && parameters_stand(t, p + 1, f, q - 1) && syntax::tok(
        t,
        q - 1,
    ) is RightParen
    ||| f.fixed.len() == 0 && f.rest is Some && syntax::tok(t, p) == TokenView::Symbol(f.rest->0)
        && q == p + 1
}

/// Whether the bindings `bs`, each a list of a name and an expression, stand one
/// behind the other from `p` to `q`.
pub open spec fn reads_bindings(
    t: Seq<SpannedView>,
    p: int,
    bs: Seq<BindingView>,
    q: int,
) -> bool
    decreases bs.len(),
{
    if bs.len() == 0 {
        p == q
    } else {
        match syntax::expr(t, p + 2) {
            Ok((init, r)) => {
                &&& opens(t, p, bs[0].name)
                &&& init == *bs[0].init
                &&& syntax::tok(t, r) is RightParen
                &&& reads_bindings(t, r + 1, bs.drop_first(), q)
            },
            Err(_) => false,
        }
    }
}

/// Whether a multiple-values binding, a list of formals and an expression,
/// stands from `p` to `q`.
pub open spec fn reads_mv_binding(
    t: Seq<SpannedView>,
    p: int,
    b: MvBindingView,
    q: int,
) -> bool {
    exists|r: int|
        {
            &&& syntax::tok(t, p) is LeftParen
            &&& #[trigger] formals_stand(t, p + 1, b.formals, r)
            &&& syntax::expr(t, r) == Ok::<_, ErrorView>((*b.init, q - 1))
            &&& syntax::tok(t, q - 1) is RightParen
        }
}

/// Whether the bindings `bs` stand one behind the other from `p` to `q`.
pub open spec fn reads_mv_bindings(
    t: Seq<SpannedView>,
    p: int,
    bs: Seq<MvBindingView>,
    q: int,
) -> bool
    decreases bs.len(),
{
    if bs.len() == 0 {
        p == q
    } else {
        exists|r: int| #[trigger]
            reads_mv_binding(t, p, bs[0], r) && reads_mv_bindings(t, r, bs.drop_first(), q)
    }
}

/// Whether a clause of `cond` stands from `p` to `q`.
pub open spec fn reads_cond_clause(
    t: Seq<SpannedView>,
    p: int,
    c: CondClauseView,
    q: int,
) -> bool {
    &&& syntax::tok(t, p) is LeftParen
    &&& syntax::tok(t, q - 1) is RightParen
    &&& match c {
        CondClauseView::Else { body } => opens(t, p, "else"@) && reads_exprs(
            t,
            p + 2,
            body,
            q - 1,
        ),
        CondClauseView::Arrow { test, recipient } => {
            &&& !opens(t, p, "else"@)
            &&& syntax::expr(t, p + 1) matches Ok((e, r)) && e == *test && syntax::tok(t, r)
                == TokenView::Symbol("=>"@) && syntax::expr(t, r + 1) == Ok::<_, ErrorView>(
                (*recipient, q - 1),
            )
        },
        CondClauseView::Clause { test, body } => {
            &&& !opens(t, p, "else"@)
            &&& syntax::expr(t, p + 1) matches Ok((e, r)) && e == *test && syntax::tok(t, r)
                != TokenView::Symbol("=>"@) && reads_exprs(t, r, body, q - 1)
        },
    }
}

/// Whether the clauses `cs` of `cond` stand one behind the other from `p` to
/// `q`.
pub open spec fn reads_cond_clauses(
    t: Seq<SpannedView>,
    p: int,
    cs: Seq<CondClauseView>,
    q: int,
) -> bool
    decreases cs.len(),
{
    if cs.len() == 0 {
        p == q
    } else {
        exists|r: int| #[trigger]
            reads_cond_clause(t, p, cs[0], r) && reads_cond_clauses(t, r, cs.drop_first(), q)
    }
}

/// Whether a clause of `case` stands from `p` to `q`.
pub open spec fn reads_case_clause(
    t: Seq<SpannedView>,
    p: int,
    c: CaseClauseView,
    q: int,
) -> bool {
    &&& syntax::tok(t, p) is LeftParen
    &&& syntax::tok(t, q - 1) is RightParen
    &&& match c {
        CaseClauseView::Else { body } => opens(t, p, "else"@) && reads_exprs(
            t,
            p + 2,
            body,
            q - 1,
        ),
        CaseClauseView::Matches { data, body } => exists|r: int|
            {
                &&& syntax::tok(t, p + 1) is LeftParen
                &&& #[trigger] reads_data(t, p + 2, data, r)
                &&& syntax::tok(t, r) is RightParen
                &&& reads_exprs(t, r + 1, body, q - 1)
            },
    }
}

/// Whether the clauses `cs` of `case` stand one behind the other from `p` to
/// `q`.
pub open spec fn reads_case_clauses(
    t: Seq<SpannedView>,
    p: int,
    cs: Seq<CaseClauseView>,
    q: int,
) -> bool
    decreases cs.len(),
{
    if cs.len() == 0 {
        p == q
    } else {
        exists|r: int| #[trigger]
            reads_case_clause(t, p, cs[0], r) && reads_case_clauses(t, r, cs.drop_first(), q)
    }
}

// ---- Steps ----

/// An expression that is read begins at no end of a list and moves on.
pub proof fn lemma_step(t: Seq<SpannedView>, p: int)
    requires
        soundness::ends(t),
        0 <= p,
    ensures
        syntax::expr(t, p) matches Ok((_, q)) ==> p < q < t.len() && !syntax::at_close(t, p),
        syntax::datum(t, p) matches Ok((_, q)) ==> p < q < t.len() && !syntax::at_close(t, p),
        syntax::top_form(t, p) matches Ok((_, q)) ==> p < q < t.len() && !syntax::at_close(t, p),
{
    if p < t.len() {
        soundness::lemma_expr(t, p);
        soundness::lemma_datum(t, p);
        soundness::lemma_top_form(t, p);
    }
}

/// An expression that is read moves on.
pub proof fn lemma_expr_step(t: Seq<SpannedView>, p: int)
    requires
        soundness::ends(t),
        0 <= p,
    ensures
        syntax::expr(t, p) matches Ok((_, q)) ==> p < q < t.len(),
{
    lemma_step(t, p);
}

/// The keyword of a form at the head of a list decides how the list is read.
pub proof fn lemma_form(t: Seq<SpannedView>, p: int, form: Form)
    requires
        opens(t, p, writing::keyword(form)),
    ensures
        syntax::expr(t, p) == syntax::special_form(t, p + 2, form),
{
    writing::lemma_keywords(form);
    assert(syntax::list_expr(t, p + 1) == syntax::special_form(t, p + 2, form));
}

/// Expressions that have been read stand before those still to be read.
pub proof fn lemma_exprs(t: Seq<SpannedView>, p: int, es: Seq<ExprView>, q: int)
    requires
        soundness::ends(t),
        0 <= p,
        reads_exprs(t, p, es, q),
    ensures
        syntax::exprs(t, p) == syntax::prepend(es, syntax::exprs(t, q)),
        p <= q,
        es.len() > 0 ==> p < q < t.len(),
    decreases es.len(),
{
    if es.len() == 0 {
        syntax::lemma_prepend_nothing(syntax::exprs(t, q));
        assert(es =~= Seq::empty());
    } else {
        lemma_step(t, p);
        let r = syntax::expr(t, p)->Ok_0.1;
        lemma_exprs(t, r, es.drop_first(), q);
        if let Ok((rest, z)) = syntax::exprs(t, q) {
            assert(seq![es[0]] + (es.drop_first() + rest) =~= es + rest);
        }
    }
}

/// Expressions up to a parenthesis.
pub proof fn lemma_exprs_closed(t: Seq<SpannedView>, p: int, es: Seq<ExprView>, q: int)
    requires
        soundness::ends(t),
        0 <= p,
        reads_exprs(t, p, es, q),
        syntax::tok(t, q) is RightParen,
    ensures
        syntax::exprs(t, p) == Ok::<_, ErrorView>((es, q)),
        p <= q,
{
    lemma_exprs(t, p, es, q);
    assert(es + Seq::empty() =~= es);
}

/// Expressions of a body that have been read stand before those still to be
/// read.
pub proof fn lemma_body_exprs(t: Seq<SpannedView>, p: int, es: Seq<ExprView>, q: int)
    requires
        soundness::ends(t),
        0 <= p,
        reads_exprs(t, p, es, q),
    ensures
        syntax::body_exprs(t, p) == syntax::prepend(es, syntax::body_exprs(t, q)),
        p <= q,
    decreases syntax::left(t, p),
{
    if es.len() == 0 {
        syntax::lemma_prepend_nothing(syntax::body_exprs(t, q));
        assert(es =~= Seq::empty());
    } else {
        lemma_step(t, p);
        if syntax::tok(t, p) is DatumComment {
            lemma_step(t, p + 1);
            let r = syntax::datum(t, p + 1)->Ok_0.1;
            lemma_body_exprs(t, r, es, q);
        } else {
            let r = syntax::expr(t, p)->Ok_0.1;
            lemma_body_exprs(t, r, es.drop_first(), q);
            if let Ok((rest, z)) = syntax::body_exprs(t, q) {
                assert(seq![es[0]] + (es.drop_first() + rest) =~= es + rest);
            }
        }
    }
}

/// Definitions that have been read stand before those still to be read.
pub proof fn lemma_definitions(t: Seq<SpannedView>, p: int, ds: Seq<DefinitionView>, q: int)
    requires
        soundness::ends(t),
        0 <= p,
        reads_definitions(t, p, ds, q),
    ensures
        syntax::definitions(t, p) == syntax::prepend(ds, syntax::definitions(t, q)),
        p <= q,
    decreases syntax::left(t, p),
{
    if ds.len() == 0 {
        syntax::lemma_prepend_nothing(syntax::definitions(t, q));
        assert(ds =~= Seq::empty());
    } else {
        lemma_step(t, p);
        if syntax::tok(t, p) is DatumComment {
            lemma_step(t, p + 1);
            let r = syntax::datum(t, p + 1)->Ok_0.1;
            lemma_definitions(t, r, ds, q);
        } else {
            let r = syntax::top_form(t, p)->Ok_0.1;
            lemma_definitions(t, r, ds.drop_first(), q);
            if let Ok((rest, z)) = syntax::definitions(t, q) {
                assert(seq![ds[0]] + (ds.drop_first() + rest) =~= ds + rest);
            }
        }
    }
}

/// A body up to the end of its list.
pub proof fn lemma_body(t: Seq<SpannedView>, p: int, body: BodyView, q: int)
    requires
        soundness::ends(t),
        0 <= p,
        reads_body_parts(t, p, body, q),
        syntax::at_close(t, q),
    ensures
        syntax::body(t, p) == Ok::<_, ErrorView>((body, q)),
        p <= q,
{
    let r = choose|r: int|
        #![trigger reads_exprs(t, r, body.expressions, q)]
        {
            &&& reads_definitions(t, p, body.definitions, r)
            &&& reads_exprs(t, r, body.expressions, q)
            &&& body.expressions.len() > 0
            &&& !opens(t, r, "define"@)
            &&& !opens(t, r, "define-syntax"@)
            &&& !(syntax::tok(t, r) is DatumComment)
        };
    lemma_definitions(t, p, body.definitions, r);
    lemma_body_exprs(t, r, body.expressions, q);
    assert(body.definitions + Seq::empty() =~= body.definitions);
    assert(body.expressions + Seq::empty() =~= body.expressions);
}

/// Data that have been read stand before those still to be read.
pub proof fn lemma_data(t: Seq<SpannedView>, p: int, ds: Seq<DatumView>, q: int)
    requires
        soundness::ends(t),
        0 <= p,
        reads_data(t, p, ds, q),
    ensures
        syntax::data(t, p) == syntax::prepend(ds, syntax::data(t, q)),
        p <= q,
    decreases ds.len(),
{
    if ds.len() == 0 {
        syntax::lemma_prepend_nothing(syntax::data(t, q));
        assert(ds =~= Seq::empty());
    } else {
        lemma_step(t, p);
        let r = syntax::datum(t, p)->Ok_0.1;
        lemma_data(t, r, ds.drop_first(), q);
        if let Ok((rest, z)) = syntax::data(t, q) {
            assert(seq![ds[0]] + (ds.drop_first() + rest) =~= ds + rest);
        }
    }
}

pub proof fn lemma_forms(t: Seq<SpannedView>, p: int, fs: Seq<TopLevelFormView>, q: int)
    requires
        soundness::ends(t),
        0 <= p,
        reads_forms(t, p, fs, q),
    ensures
        syntax::top_forms(t, p) == syntax::prepend(fs, syntax::top_forms(t, q)),
        syntax::program_from(t, p) == syntax::prepend(fs, syntax::program_from(t, q)),
        p <= q,
    decreases fs.len(),
{
    if fs.len() == 0 {
        syntax::lemma_prepend_nothing(syntax::top_forms(t, q));
        syntax::lemma_prepend_nothing(syntax::program_from(t, q));
        assert(fs =~= Seq::empty());
    } else {
        lemma_step(t, p);
        let r = syntax::top_form(t, p)->Ok_0.1;
        lemma_forms(t, r, fs.drop_first(), q);
        if let Ok((rest, z)) = syntax::top_forms(t, q) {
            assert(seq![fs[0]] + (fs.drop_first() + rest) =~= fs + rest);
        }
        if let Ok((rest, z)) = syntax::program_from(t, q) {
            assert(seq![fs[0]] + (fs.drop_first() + rest) =~= fs + rest);
        }
    }
}

/// Parameters up to the parenthesis behind them.
pub proof fn lemma_parameters(t: Seq<SpannedView>, p: int, f: FormalsView, q: int)
    requires
        0 <= p,
        parameters_stand(t, p, f, q),
        syntax::tok(t, q) is RightParen,
    ensures
        syntax::formals_rest(t, p) == Ok::<_, ErrorView>((f, q)),
        p <= q,
    decreases f.fixed.len(),
{
    if f.fixed.len() == 0 {
        assert(f.fixed =~= Seq::empty());
    } else {
        let rest = FormalsView { fixed: f.fixed.drop_first(), rest: f.rest };
        assert forall|i: int| 0 <= i < rest.fixed.len() implies syntax::tok(t, p + 1 + i)
            == TokenView::Symbol(#[trigger] rest.fixed[i]) by {
            assert(rest.fixed[i] == f.fixed[i + 1]);
        }
        lemma_parameters(t, p + 1, rest, q);
        assert(syntax::tok(t, p + 0) == TokenView::Symbol(f.fixed[0]));
        assert(seq![f.fixed[0]] + rest.fixed =~= f.fixed);
    }
}

pub proof fn lemma_formals(t: Seq<SpannedView>, p: int, f: FormalsView, q: int)
    requires
        0 <= p,
        formals_stand(t, p, f, q),
    ensures
        syntax::formals(t, p) == Ok::<_, ErrorView>((f, q)),
        p < q,
{
    if syntax::tok(t, p) is LeftParen {
        lemma_parameters(t, p + 1, f, q - 1);
    } else {
        assert(f.fixed =~= Seq::empty());
    }
}

pub proof fn lemma_bindings(t: Seq<SpannedView>, p: int, bs: Seq<BindingView>, q: int)
    requires
        soundness::ends(t),
        0 <= p,
        reads_bindings(t, p, bs, q),
    ensures
        syntax::binding_items(t, p) == syntax::prepend(bs, syntax::binding_items(t, q)),
        p <= q,
    decreases bs.len(),
{
    if bs.len() == 0 {
        syntax::lemma_prepend_nothing(syntax::binding_items(t, q));
        assert(bs =~= Seq::empty());
    } else {
        lemma_step(t, p + 2);
        let (init, r) = syntax::expr(t, p + 2)->Ok_0;
        lemma_bindings(t, r + 1, bs.drop_first(), q);
        assert(syntax::binding(t, p) == Ok::<_, ErrorView>((bs[0], r + 1)));
        if let Ok((rest, z)) = syntax::binding_items(t, q) {
            assert(seq![bs[0]] + (bs.drop_first() + rest) =~= bs + rest);
        }
    }
}

#[verifier::rlimit(30)]
pub proof fn lemma_mv_binding(t: Seq<SpannedView>, p: int, b: MvBindingView, q: int)
    requires
        soundness::ends(t),
        0 <= p,
        reads_mv_binding(t, p, b, q),
    ensures
        syntax::mv_binding(t, p) == Ok::<_, ErrorView>((b, q)),
        p < q,
        syntax::tok(t, p) is LeftParen,
{
    let r = choose|r: int|
        {
            &&& syntax::tok(t, p) is LeftParen
            &&& #[trigger] formals_stand(t, p + 1, b.formals, r)
            &&& syntax::expr(t, r) == Ok::<_, ErrorView>((*b.init, q - 1))
            &&& syntax::tok(t, q - 1) is RightParen
        };
    lemma_formals(t, p + 1, b.formals, r);
    lemma_expr_step(t, r);
    assert(syntax::closed(t, syntax::expr(t, r), "expected ) to close mv binding"@) == Ok::<
        _,
        ErrorView,
    >((*b.init, q)));
}

pub proof fn lemma_mv_bindings(t: Seq<SpannedView>, p: int, bs: Seq<MvBindingView>, q: int)
    requires
        soundness::ends(t),
        0 <= p,
        reads_mv_bindings(t, p, bs, q),
    ensures
        syntax::mv_binding_items(t, p) == syntax::prepend(bs, syntax::mv_binding_items(t, q)),
        p <= q,
    decreases bs.len(),
{
    if bs.len() == 0 {
        syntax::lemma_prepend_nothing(syntax::mv_binding_items(t, q));
        assert(bs =~= Seq::empty());
    } else {
        let r = choose|r: int| #[trigger]
            reads_mv_binding(t, p, bs[0], r) && reads_mv_bindings(t, r, bs.drop_first(), q);
        lemma_mv_binding(t, p, bs[0], r);
        lemma_mv_bindings(t, r, bs.drop_first(), q);
        if let Ok((rest, z)) = syntax::mv_binding_items(t, q) {
            assert(seq![bs[0]] + (bs.drop_first() + rest) =~= bs + rest);
        }
    }
}

pub proof fn lemma_cond_clause(t: Seq<SpannedView>, p: int, c: CondClauseView, q: int)
    requires
        soundness::ends(t),
        0 <= p,
        reads_cond_clause(t, p, c, q),
    ensures
        syntax::cond_clause(t, p) == Ok::<_, ErrorView>((c, q)),
        p < q,
{
    match c {
        CondClauseView::Else { body } => lemma_else_clause(t, p, body, q),
        CondClauseView::Arrow { test, recipient } => {
            lemma_arrow_clause(t, p, *test, *recipient, q);
        },
        CondClauseView::Clause { test, body } => lemma_test_clause(t, p, *test, body, q),
    }
}

proof fn lemma_else_clause(t: Seq<SpannedView>, p: int, body: Seq<ExprView>, q: int)
    requires
        soundness::ends(t),
        0 <= p,
        opens(t, p, "else"@),
        reads_exprs(t, p + 2, body, q - 1),
        syntax::tok(t, q - 1) is RightParen,
    ensures
        syntax::cond_clause(t, p) == Ok::<_, ErrorView>((CondClauseView::Else { body }, q)),
        syntax::case_clause(t, p) == Ok::<_, ErrorView>((CaseClauseView::Else { body }, q)),
        p < q,
{
    lemma_exprs_closed(t, p + 2, body, q - 1);
    assert(syntax::closed(t, syntax::exprs(t, p + 2), "expected ) to close else clause"@) == Ok::<
        _,
        ErrorView,
    >((body, q)));
}

#[verifier::rlimit(30)]
proof fn lemma_arrow_clause(
    t: Seq<SpannedView>,
    p: int,
    test: ExprView,
    recipient: ExprView,
    q: int,
)
    requires
        soundness::ends(t),
        0 <= p,
        reads_cond_clause(
            t,
            p,
            (CondClauseView::Arrow { test: Box::new(test), recipient: Box::new(recipient) }),
            q,
        ),
    ensures
        syntax::cond_clause(t, p) == Ok::<_, ErrorView>(
            (
                CondClauseView::Arrow { test: Box::new(test), recipient: Box::new(recipient) },
                q,
            ),
        ),
        p < q,
{
    lemma_expr_step(t, p + 1);
    let r = syntax::expr(t, p + 1)->Ok_0.1;
    lemma_expr_step(t, r + 1);
    assert(syntax::closed(t, syntax::expr(t, r + 1), "expected ) to close => clause"@) == Ok::<
        _,
        ErrorView,
    >((recipient, q)));
}

#[verifier::rlimit(30)]
proof fn lemma_test_clause(
    t: Seq<SpannedView>,
    p: int,
    test: ExprView,
    body: Seq<ExprView>,
    q: int,
)
    requires
        soundness::ends(t),
        0 <= p,
        reads_cond_clause(t, p, (CondClauseView::Clause { test: Box::new(test), body }), q),
    ensures
        syntax::cond_clause(t, p) == Ok::<_, ErrorView>(
            (CondClauseView::Clause { test: Box::new(test), body }, q),
        ),
        p < q,
{
    lemma_expr_step(t, p + 1);
    let r = syntax::expr(t, p + 1)->Ok_0.1;
    lemma_exprs_closed(t, r, body, q - 1);
    assert(syntax::closed(t, syntax::exprs(t, r), "expected ) to close cond clause"@) == Ok::<
        _,
        ErrorView,
    >((body, q)));
}

pub proof fn lemma_cond_clauses(t: Seq<SpannedView>, p: int, cs: Seq<CondClauseView>, q: int)
    requires
        soundness::ends(t),
        0 <= p,
        reads_cond_clauses(t, p, cs, q),
    ensures
        syntax::cond_clauses(t, p) == syntax::prepend(cs, syntax::cond_clauses(t, q)),
        p <= q,
    decreases cs.len(),
{
    if cs.len() == 0 {
        syntax::lemma_prepend_nothing(syntax::cond_clauses(t, q));
        assert(cs =~= Seq::empty());
    } else {
        let r = choose|r: int| #[trigger]
            reads_cond_clause(t, p, cs[0], r) && reads_cond_clauses(t, r, cs.drop_first(), q);
        lemma_cond_clause(t, p, cs[0], r);
        lemma_cond_clauses(t, r, cs.drop_first(), q);
        if let Ok((rest, z)) = syntax::cond_clauses(t, q) {
            assert(seq![cs[0]] + (cs.drop_first() + rest) =~= cs + rest);
        }
    }
}

pub proof fn lemma_case_clause(t: Seq<SpannedView>, p: int, c: CaseClauseView, q: int)
    requires
        soundness::ends(t),
        0 <= p,
        reads_case_clause(t, p, c, q),
    ensures
        syntax::case_clause(t, p) == Ok::<_, ErrorView>((c, q)),
        p < q,
{
    match c {
        CaseClauseView::Else { body } => lemma_else_clause(t, p, body, q),
        CaseClauseView::Matches { data, body } => {
            let r = choose|r: int|
                {
                    &&& syntax::tok(t, p + 1) is LeftParen
                    &&& #[trigger] reads_data(t, p + 2, data, r)
                    &&& syntax::tok(t, r) is RightParen
                    &&& reads_exprs(t, r + 1, body, q - 1)
                };
            lemma_matches_clause(t, p, data, r, body, q);
        },
    }
}

#[verifier::rlimit(30)]
proof fn lemma_matches_clause(
    t: Seq<SpannedView>,
    p: int,
    data: Seq<DatumView>,
    r: int,
    body: Seq<ExprView>,
    q: int,
)
    requires
        soundness::ends(t),
        0 <= p,
        syntax::tok(t, p) is LeftParen,
        syntax::tok(t, p + 1) is LeftParen,
        reads_data(t, p + 2, data, r),
        syntax::tok(t, r) is RightParen,
        reads_exprs(t, r + 1, body, q - 1),
        syntax::tok(t, q - 1) is RightParen,
    ensures
        syntax::case_clause(t, p) == Ok::<_, ErrorView>(
            (CaseClauseView::Matches { data, body }, q),
        ),
        p < q,
{
    lemma_data(t, p + 2, data, r);
    assert(data + Seq::empty() =~= data);
    assert(syntax::closed(t, syntax::data(t, p + 2), "expected ) to close datum list"@) == Ok::<
        _,
        ErrorView,
    >((data, r + 1)));
    lemma_exprs_closed(t, r + 1, body, q - 1);
    assert(syntax::closed(t, syntax::exprs(t, r + 1), "expected ) to close case clause"@) == Ok::<
        _,
        ErrorView,
    >((body, q)));
}

pub proof fn lemma_case_clauses(t: Seq<SpannedView>, p: int, cs: Seq<CaseClauseView>, q: int)
    requires
        soundness::ends(t),
        0 <= p,
        reads_case_clauses(t, p, cs, q),
    ensures
        syntax::case_clauses(t, p) == syntax::prepend(cs, syntax::case_clauses(t, q)),
        p <= q,
    decreases cs.len(),
{
    if cs.len() == 0 {
        syntax::lemma_prepend_nothing(syntax::case_clauses(t, q));
        assert(cs =~= Seq::empty());
    } else {
        let r = choose|r: int| #[trigger]
            reads_case_clause(t, p, cs[0], r) && reads_case_clauses(t, r, cs.drop_first(), q);
        lemma_case_clause(t, p, cs[0], r);
        lemma_case_clauses(t, r, cs.drop_first(), q);
        if let Ok((rest, z)) = syntax::case_clauses(t, q) {
            assert(seq![cs[0]] + (cs.drop_first() + rest) =~= cs + rest);
        }
    }
}

// ---- Expressions ----

/// Three expressions behind `if` are its test, its consequent and its
/// alternate; of two, the first is its test and the second its consequent.
pub proof fn law_if(
    t: Seq<SpannedView>,
    p: int,
    test: ExprView,
    q: int,
    consequent: ExprView,
    r: int,
)
    requires
        soundness::ends(t),
        0 <= p,
        opens(t, p, "if"@),
        syntax::expr(t, p + 2) == Ok::<_, ErrorView>((test, q)),
        syntax::expr(t, q) == Ok::<_, ErrorView>((consequent, r)),
    ensures
        syntax::tok(t, r) is RightParen ==> syntax::expr(t, p) == Ok::<_, ErrorView>(
            (
                ExprView::If {
                    test: Box::new(test),
                    consequent: Box::new(consequent),
                    alternate: None,
                },
                r + 1,
            ),
        ),
        forall|alternate: ExprView, s: int|
            syntax::expr(t, r) == Ok::<_, ErrorView>((alternate, s)) && syntax::tok(
                t,
                s,
            ) is RightParen ==> syntax::expr(t, p) == Ok::<_, ErrorView>(
                (
                    ExprView::If {
                        test: Box::new(test),
                        consequent: Box::new(consequent),
                        alternate: Some(Box::new(alternate)),
                    },
                    s + 1,
                ),
            ),
{
    lemma_form(t, p, Form::If);
    lemma_step(t, p + 2);
    lemma_step(t, q);
    lemma_step(t, r);
}

/// A symbol and an expression behind `set!` are the variable and its new value.
pub proof fn law_set(t: Seq<SpannedView>, p: int, var: Seq<char>, value: ExprView, q: int)
    requires
        soundness::ends(t),
        0 <= p,
        opens(t, p, "set!"@),
        syntax::tok(t, p + 2) == TokenView::Symbol(var),
        syntax::expr(t, p + 3) == Ok::<_, ErrorView>((value, q)),
        syntax::tok(t, q) is RightParen,
    ensures
        syntax::expr(t, p) == Ok::<_, ErrorView>(
            (ExprView::SetBang { var, value: Box::new(value) }, q + 1),
        ),
{
    lemma_form(t, p, Form::SetBang);
}

/// Formals and a body behind `lambda` are a procedure.
pub proof fn law_lambda(
    t: Seq<SpannedView>,
    p: int,
    formals: FormalsView,
    q: int,
    body: BodyView,
    r: int,
)
    requires
        soundness::ends(t),
        0 <= p,
        opens(t, p, "lambda"@),
        formals_stand(t, p + 2, formals, q),
        reads_body(t, q, body, r),
    ensures
        syntax::expr(t, p) == Ok::<_, ErrorView>((ExprView::Lambda { formals, body }, r + 1)),
{
    lemma_form(t, p, Form::Lambda);
    lemma_formals(t, p + 2, formals, q);
    lemma_body(t, q, body, r);
}

/// The expressions behind `and`, `or` and `begin`, in their order, are their
/// operands.
pub proof fn law_connectives(t: Seq<SpannedView>, p: int, es: Seq<ExprView>, q: int)
    requires
        soundness::ends(t),
        0 <= p,
        reads_exprs(t, p + 2, es, q),
        syntax::tok(t, q) is RightParen,
    ensures
        opens(t, p, "and"@) ==> syntax::expr(t, p) == Ok::<_, ErrorView>(
            (ExprView::And(es), q + 1),
        ),
        opens(t, p, "or"@) ==> syntax::expr(t, p) == Ok::<_, ErrorView>((ExprView::Or(es), q + 1)),
        opens(t, p, "begin"@) ==> syntax::expr(t, p) == Ok::<_, ErrorView>(
            (ExprView::Begin(es), q + 1),
        ),
{
    lemma_exprs_closed(t, p + 2, es, q);
    if opens(t, p, "and"@) {
        lemma_form(t, p, Form::And);
    }
    if opens(t, p, "or"@) {
        lemma_form(t, p, Form::Or);
    }
    if opens(t, p, "begin"@) {
        lemma_form(t, p, Form::Begin);
    }
}

/// The first expression behind `when` and `unless` is the test, the others, in
/// their order, are what depends on it.
pub proof fn law_when_and_unless(
    t: Seq<SpannedView>,
    p: int,
    test: ExprView,
    q: int,
    body: Seq<ExprView>,
    r: int,
)
    requires
        soundness::ends(t),
        0 <= p,
        syntax::expr(t, p + 2) == Ok::<_, ErrorView>((test, q)),
        reads_exprs(t, q, body, r),
        syntax::tok(t, r) is RightParen,
    ensures
        opens(t, p, "when"@) ==> syntax::expr(t, p) == Ok::<_, ErrorView>(
            (ExprView::When { test: Box::new(test), body }, r + 1),
        ),
        opens(t, p, "unless"@) ==> syntax::expr(t, p) == Ok::<_, ErrorView>(
            (ExprView::Unless { test: Box::new(test), body }, r + 1),
        ),
{
    lemma_step(t, p + 2);
    lemma_exprs_closed(t, q, body, r);
    if opens(t, p, "when"@) {
        lemma_form(t, p, Form::When);
    }
    if opens(t, p, "unless"@) {
        lemma_form(t, p, Form::Unless);
    }
}

/// The clauses behind `cond`, in their order, are its clauses.
pub proof fn law_cond(t: Seq<SpannedView>, p: int, clauses: Seq<CondClauseView>, q: int)
    requires
        soundness::ends(t),
        0 <= p,
        opens(t, p, "cond"@),
        reads_cond_clauses(t, p + 2, clauses, q),
        syntax::tok(t, q) is RightParen,
    ensures
        syntax::expr(t, p) == Ok::<_, ErrorView>((ExprView::Cond(clauses), q + 1)),
{
    lemma_form(t, p, Form::Cond);
    lemma_cond_clauses(t, p + 2, clauses, q);
    assert(clauses + Seq::empty() =~= clauses);
}

/// An expression and clauses behind `case` are its key and its clauses.
pub proof fn law_case(
    t: Seq<SpannedView>,
    p: int,
    key: ExprView,
    q: int,
    clauses: Seq<CaseClauseView>,
    r: int,
)
    requires
        soundness::ends(t),
        0 <= p,
        opens(t, p, "case"@),
        syntax::expr(t, p + 2) == Ok::<_, ErrorView>((key, q)),
        reads_case_clauses(t, q, clauses, r),
        syntax::tok(t, r) is RightParen,
    ensures
        syntax::expr(t, p) == Ok::<_, ErrorView>(
            (ExprView::Case { key: Box::new(key), clauses }, r + 1),
        ),
{
    lemma_form(t, p, Form::Case);
    lemma_step(t, p + 2);
    lemma_case_clauses(t, q, clauses, r);
    assert(clauses + Seq::empty() =~= clauses);
}

/// A list of bindings and a body behind `let`, with a name before them or not,
/// and behind its relatives, are the bindings and the body of the form.
pub proof fn law_let(
    t: Seq<SpannedView>,
    p: int,
    q: int,
    bindings: Seq<BindingView>,
    r: int,
    body: BodyView,
    s: int,
)
    requires
        soundness::ends(t),
        0 <= p <= q,
        syntax::tok(t, q) is LeftParen,
        reads_bindings(t, q + 1, bindings, r),
        syntax::tok(t, r) is RightParen,
        reads_body(t, r + 1, body, s),
    ensures
        opens(t, p, "let"@) && q == p + 2 ==> syntax::expr(t, p) == Ok::<_, ErrorView>(
            (ExprView::Let { name: None, bindings, body }, s + 1),
        ),
        forall|name: Seq<char>|
            opens(t, p, "let"@) && syntax::tok(t, p + 2) == TokenView::Symbol(name) && q == p + 3
                ==> syntax::expr(t, p) == Ok::<_, ErrorView>(
                (ExprView::Let { name: Some(name), bindings, body }, s + 1),
            ),
        opens(t, p, "let*"@) && q == p + 2 ==> syntax::expr(t, p) == Ok::<_, ErrorView>(
            (ExprView::LetStar { bindings, body }, s + 1),
        ),
        opens(t, p, "letrec"@) && q == p + 2 ==> syntax::expr(t, p) == Ok::<_, ErrorView>(
            (ExprView::LetRec { bindings, body }, s + 1),
        ),
        opens(t, p, "letrec*"@) && q == p + 2 ==> syntax::expr(t, p) == Ok::<_, ErrorView>(
            (ExprView::LetRecStar { bindings, body }, s + 1),
        ),
{
    lemma_bindings(t, q + 1, bindings, r);
    assert(bindings + Seq::empty() =~= bindings);
    lemma_body(t, r + 1, body, s);
    assert(syntax::bindings(t, q) == Ok::<_, ErrorView>((bindings, r + 1)));
    if opens(t, p, "let"@) {
        lemma_form(t, p, Form::Let);
        assert(syntax::binding_form(t, q, "expected ) to close let"@) == Ok::<_, ErrorView>(
            ((bindings, body), s + 1),
        ));
    }
    if opens(t, p, "let*"@) && q == p + 2 {
        lemma_form(t, p, Form::LetStar);
        assert(syntax::binding_form(t, q, "expected ) to close let*"@) is Ok);
    }
    if opens(t, p, "letrec"@) && q == p + 2 {
        lemma_form(t, p, Form::LetRec);
        assert(syntax::binding_form(t, q, "expected ) to close letrec"@) is Ok);
    }
    if opens(t, p, "letrec*"@) && q == p + 2 {
        lemma_form(t, p, Form::LetRecStar);
        assert(syntax::binding_form(t, q, "expected ) to close letrec*"@) is Ok);
    }
}

/// A list of bindings of several variables each and a body behind `let-values`
/// and `let*-values` are the bindings and the body of the form.
pub proof fn law_let_values(
    t: Seq<SpannedView>,
    p: int,
    bindings: Seq<MvBindingView>,
    r: int,
    body: BodyView,
    s: int,
)
    requires
        soundness::ends(t),
        0 <= p,
        syntax::tok(t, p + 2) is LeftParen,
        reads_mv_bindings(t, p + 3, bindings, r),
        syntax::tok(t, r) is RightParen,
        reads_body(t, r + 1, body, s),
    ensures
        opens(t, p, "let-values"@) ==> syntax::expr(t, p) == Ok::<_, ErrorView>(
            (ExprView::LetValues { bindings, body }, s + 1),
        ),
        opens(t, p, "let*-values"@) ==> syntax::expr(t, p) == Ok::<_, ErrorView>(
            (ExprView::LetStarValues { bindings, body }, s + 1),
        ),
{
    lemma_mv_bindings(t, p + 3, bindings, r);
    assert(bindings + Seq::empty() =~= bindings);
    lemma_body(t, r + 1, body, s);
    assert(syntax::mv_bindings(t, p + 2) == Ok::<_, ErrorView>((bindings, r + 1)));
    if opens(t, p, "let-values"@) {
        lemma_form(t, p, Form::LetValues);
    }
    if opens(t, p, "let*-values"@) {
        lemma_form(t, p, Form::LetStarValues);
    }
}

/// Whether a symbol is the keyword of a special form.
pub open spec fn is_keyword(name: Seq<char>) -> bool {
    ||| name == "quote"@
    ||| name == "lambda"@
    ||| name == "if"@
    ||| name == "set!"@
    ||| name == "cond"@
    ||| name == "case"@
    ||| name == "when"@
    ||| name == "unless"@
    ||| name == "and"@
    ||| name == "or"@
    ||| name == "let"@
    ||| name == "let*"@
    ||| name == "letrec"@
    ||| name == "letrec*"@
    ||| name == "let-values"@
    ||| name == "let*-values"@
    ||| name == "begin"@
}

/// A list that begins with no keyword is the application of the expression at
/// its head to those behind it, in their order.
pub proof fn law_application(
    t: Seq<SpannedView>,
    p: int,
    operator: ExprView,
    q: int,
    operands: Seq<ExprView>,
    r: int,
)
    requires
        soundness::ends(t),
        0 <= p,
        syntax::tok(t, p) is LeftParen,
        syntax::tok(t, p + 1) matches TokenView::Symbol(name) ==> !is_keyword(name),
        syntax::expr(t, p + 1) == Ok::<_, ErrorView>((operator, q)),
        reads_exprs(t, q, operands, r),
        syntax::tok(t, r) is RightParen,
    ensures
        syntax::expr(t, p) == Ok::<_, ErrorView>(
            (ExprView::Application { operator: Box::new(operator), operands }, r + 1),
        ),
{
    lemma_step(t, p + 1);
    lemma_exprs_closed(t, q, operands, r);
    assert(syntax::list_expr(t, p + 1) == syntax::application(t, p + 1));
}

/// A quotation is its datum, spelled with the mark or with the word; the other
/// marks apply the variable of their name to the datum as a literal; `()` is
/// the quoted empty list.
pub proof fn law_quotations(t: Seq<SpannedView>, p: int, d: DatumView, q: int)
    requires
        syntax::datum(t, p) == Ok::<_, ErrorView>((d, q)),
    ensures
        syntax::tok(t, p - 1) is Quote ==> syntax::expr(t, p - 1) == Ok::<_, ErrorView>(
            (ExprView::Quote(d), q),
        ),
        opens(t, p - 2, "quote"@) && syntax::tok(t, q) is RightParen ==> syntax::expr(t, p - 2)
            == Ok::<_, ErrorView>((ExprView::Quote(d), q + 1)),
        syntax::tok(t, p - 1) is QuasiQuote ==> syntax::expr(t, p - 1) == Ok::<_, ErrorView>(
            (
                ExprView::Application {
                    operator: Box::new(ExprView::Var("quasiquote"@)),
                    operands: seq![ExprView::Literal(d)],
                },
                q,
            ),
        ),
        syntax::tok(t, p - 1) is Unquote ==> syntax::expr(t, p - 1) == Ok::<_, ErrorView>(
            (
                ExprView::Application {
                    operator: Box::new(ExprView::Var("unquote"@)),
                    operands: seq![ExprView::Literal(d)],
                },
                q,
            ),
        ),
        syntax::tok(t, p - 1) is UnquoteSplicing ==> syntax::expr(t, p - 1) == Ok::<_, ErrorView>(
            (
                ExprView::Application {
                    operator: Box::new(ExprView::Var("unquote-splicing"@)),
                    operands: seq![ExprView::Literal(d)],
                },
                q,
            ),
        ),
{
    if opens(t, p - 2, "quote"@) {
        lemma_form(t, p - 2, Form::Quote);
    }
}

/// A token that stands for a value is that value as a literal, a symbol is a
/// variable, and a vector or a bytevector is a literal as a whole.
pub proof fn law_single_tokens(t: Seq<SpannedView>, p: int)
    ensures
        forall|b: bool|
            syntax::tok(t, p) == TokenView::Boolean(b) ==> syntax::expr(t, p) == Ok::<_, ErrorView>(
                (ExprView::Literal(DatumView::Boolean(b)), p + 1),
            ),
        forall|c: char|
            syntax::tok(t, p) == TokenView::Character(c) ==> syntax::expr(t, p) == Ok::<
                _,
                ErrorView,
            >((ExprView::Literal(DatumView::Character(c)), p + 1)),
        forall|n: NumberView|
            syntax::tok(t, p) == TokenView::Number(n) ==> syntax::expr(t, p) == Ok::<_, ErrorView>(
                (ExprView::Literal(DatumView::Number(n)), p + 1),
            ),
        forall|s: Seq<char>|
            syntax::tok(t, p) == TokenView::String(s) ==> syntax::expr(t, p) == Ok::<_, ErrorView>(
                (ExprView::Literal(DatumView::String(s)), p + 1),
            ),
        forall|s: Seq<char>|
            syntax::tok(t, p) == TokenView::Symbol(s) ==> syntax::expr(t, p) == Ok::<_, ErrorView>(
                (ExprView::Var(s), p + 1),
            ),
        forall|d: DatumView, q: int|
            (syntax::tok(t, p) is VectorPrefix || syntax::tok(t, p) is ByteVectorPrefix)
                && syntax::datum(t, p) == Ok::<_, ErrorView>((d, q)) ==> syntax::expr(t, p) == Ok::<
                _,
                ErrorView,
            >((ExprView::Literal(d), q)),
        syntax::tok(t, p) is LeftParen && syntax::tok(t, p + 1) is RightParen ==> syntax::expr(t, p)
            == Ok::<_, ErrorView>((ExprView::Quote(DatumView::Null), p + 2)),
{
    if syntax::tok(t, p) is LeftParen && syntax::tok(t, p + 1) is RightParen {
        assert(syntax::list_expr(t, p + 1) is Ok);
    }
}

// ---- Definitions and top-level forms ----

/// A symbol and an expression behind `define` define that variable with that
/// initial value. It has none only where the parenthesis follows the symbol.
pub proof fn law_define_variable(t: Seq<SpannedView>, p: int, name: Seq<char>)
    requires
        opens(t, p, "define"@),
        syntax::tok(t, p + 2) == TokenView::Symbol(name),
    ensures
        forall|init: ExprView, q: int|
            syntax::expr(t, p + 3) == Ok::<_, ErrorView>((init, q)) && syntax::tok(
                t,
                q,
            ) is RightParen ==> syntax::top_form(t, p) == Ok::<_, ErrorView>(
                (
                    TopLevelFormView::Definition(
                        DefinitionView::Variable { name, init: Some(Box::new(init)) },
                    ),
                    q + 1,
                ),
            ),
        syntax::tok(t, p + 3) is RightParen ==> syntax::top_form(t, p) == Ok::<_, ErrorView>(
            (TopLevelFormView::Definition(DefinitionView::Variable { name, init: None }), p + 4),
        ),
        forall|other: Seq<char>, q: int|
            syntax::top_form(t, p) == Ok::<_, ErrorView>(
                (
                    TopLevelFormView::Definition(
                        DefinitionView::Variable { name: other, init: None },
                    ),
                    q,
                ),
            ) ==> other == name && syntax::tok(t, p + 3) is RightParen && q == p + 4,
{
    assert(syntax::definition(t, p + 1) == syntax::define_rest(t, p + 2));
    assert(syntax::at_close(t, p + 3) ==> syntax::expr(t, p + 3) is Err);
}

/// A list of a symbol and parameters, and a body, behind `define` define a
/// procedure.
pub proof fn law_define_function(
    t: Seq<SpannedView>,
    p: int,
    name: Seq<char>,
    formals: FormalsView,
    q: int,
    body: BodyView,
    r: int,
)
    requires
        soundness::ends(t),
        0 <= p,
        opens(t, p, "define"@),
        opens(t, p + 2, name),
        parameters_stand(t, p + 4, formals, q),
        syntax::tok(t, q) is RightParen,
        reads_body(t, q + 1, body, r),
    ensures
        syntax::top_form(t, p) == Ok::<_, ErrorView>(
            (TopLevelFormView::Definition(DefinitionView::Function { name, formals, body }), r + 1),
        ),
{
    lemma_parameters(t, p + 4, formals, q);
    lemma_body(t, q + 1, body, r);
    assert(syntax::define_rest(t, p + 2) == Ok::<_, ErrorView>(
        (DefinitionView::Function { name, formals, body }, r),
    ));
    assert(syntax::definition(t, p + 1) == syntax::define_rest(t, p + 2));
}

/// A symbol and an expression behind `define-syntax` define a keyword.
pub proof fn law_define_syntax(
    t: Seq<SpannedView>,
    p: int,
    keyword: Seq<char>,
    init: ExprView,
    q: int,
)
    requires
        opens(t, p, "define-syntax"@),
        syntax::tok(t, p + 2) == TokenView::Symbol(keyword),
        syntax::expr(t, p + 3) == Ok::<_, ErrorView>((init, q)),
        syntax::tok(t, q) is RightParen,
    ensures
        syntax::top_form(t, p) == Ok::<_, ErrorView>(
            (
                TopLevelFormView::Definition(
                    DefinitionView::Syntax { keyword, init: Box::new(init) },
                ),
                q + 1,
            ),
        ),
{
    lemma_definition_words();
    assert(syntax::definition(t, p + 1) is Ok);
}

pub proof fn lemma_definition_words()
    ensures
        "define"@ != "define-syntax"@,
        "define"@ != "begin"@,
        "define-syntax"@ != "begin"@,
{
    reveal_strlit("define");
    reveal_strlit("define-syntax");
    reveal_strlit("begin");
    assert("define"@.len() == 6);
    assert("define-syntax"@.len() == 13);
    assert("begin"@.len() == 5);
}

/// At the top level, `begin` holds the forms behind it, in their order; what
/// begins like no definition and no `begin` is an expression.
pub proof fn law_top_level(t: Seq<SpannedView>, p: int)
    requires
        soundness::ends(t),
        0 <= p,
    ensures
        forall|forms: Seq<TopLevelFormView>, q: int|
            opens(t, p, "begin"@) && #[trigger] reads_forms(t, p + 2, forms, q) && syntax::tok(
                t,
                q,
            ) is RightParen ==> syntax::top_form(t, p) == Ok::<_, ErrorView>(
                (TopLevelFormView::Begin(forms), q + 1),
            ),
        forall|e: ExprView, q: int|
            !opens(t, p, "begin"@) && !opens(t, p, "define"@) && !opens(t, p, "define-syntax"@)
                && !(syntax::tok(t, p) is DatumComment) && syntax::expr(t, p) == Ok::<_, ErrorView>(
                (e, q),
            ) ==> syntax::top_form(t, p) == Ok::<_, ErrorView>((TopLevelFormView::Expr(e), q)),
{
    lemma_definition_words();
    assert forall|forms: Seq<TopLevelFormView>, q: int|
        opens(t, p, "begin"@) && #[trigger] reads_forms(t, p + 2, forms, q) && syntax::tok(
            t,
            q,
        ) is RightParen implies syntax::top_form(t, p) == Ok::<_, ErrorView>(
        (TopLevelFormView::Begin(forms), q + 1),
    ) by {
        lemma_forms(t, p + 2, forms, q);
        assert(forms + Seq::empty() =~= forms);
    }
}

/// A source is the program of the forms that its tokens, datum comments taken
/// out, are read as one behind the other up to the end.
pub proof fn law_program(b: Seq<u8>, forms: Seq<TopLevelFormView>, q: int)
    requires
        lexical::tokens(b) is Ok,
        reads_forms(syntax::uncommented(lexical::tokens(b)->Ok_0), 0, forms, q),
        syntax::tok(syntax::uncommented(lexical::tokens(b)->Ok_0), q) is Eof,
    ensures
        syntax::program(b) == Ok::<_, ErrorView>(forms),
{
    let t = lexical::tokens(b)->Ok_0;
    laws::law_single_trailing_eof(b);
    comments::lemma_uncommented_ends(t);
    lemma_forms(syntax::uncommented(t), 0, forms, q);
    assert(forms + Seq::empty() =~= forms);
}

/// A source is the expression that its tokens, datum comments taken out, are
/// read as, where the end follows; where anything else follows, it is none.
pub proof fn law_expression(b: Seq<u8>, e: ExprView, q: int)
    requires
        lexical::tokens(b) is Ok,
        syntax::expr(syntax::uncommented(lexical::tokens(b)->Ok_0), 0) == Ok::<_, ErrorView>(
            (e, q),
        ),
    ensures
        syntax::tok(syntax::uncommented(lexical::tokens(b)->Ok_0), q) is Eof
            ==> syntax::expression(b) == Ok::<_, ErrorView>(e),
        !(syntax::tok(syntax::uncommented(lexical::tokens(b)->Ok_0), q) is Eof) ==> (
        syntax::expression(b) matches Err(f) && f.message == "unexpected trailing input"@ && f.span
            == syntax::uncommented(lexical::tokens(b)->Ok_0)[q].span),
{
}

// ---- Data ----

/// The list of data that ends in `rest`.
pub open spec fn list_of(ds: Seq<DatumView>, rest: DatumView) -> DatumView
    decreases ds.len(),
{
    if ds.len() == 0 {
        rest
    } else {
        DatumView::Pair(Box::new(ds[0]), Box::new(list_of(ds.drop_first(), rest)))
    }
}

pub proof fn lemma_list(t: Seq<SpannedView>, p: int, ds: Seq<DatumView>, q: int)
    requires
        soundness::ends(t),
        0 <= p,
        reads_data(t, p, ds, q),
    ensures
        syntax::list_rest(t, p) == match syntax::list_rest(t, q) {
            Ok((rest, z)) => Ok((list_of(ds, rest), z)),
            Err(e) => Err(e),
        },
        p <= q,
    decreases ds.len(),
{
    if ds.len() > 0 {
        lemma_step(t, p);
        let r = syntax::datum(t, p)->Ok_0.1;
        lemma_list(t, r, ds.drop_first(), q);
    }
}

/// Data between parentheses are the list of them, in their order; a dot and one
/// more datum end the list with that datum; data behind the prefix of a vector
/// are its elements.
pub proof fn law_lists_and_vectors(t: Seq<SpannedView>, p: int, ds: Seq<DatumView>, q: int)
    requires
        soundness::ends(t),
        0 <= p,
        reads_data(t, p + 1, ds, q),
    ensures
        syntax::tok(t, p) is LeftParen && syntax::tok(t, q) is RightParen ==> syntax::datum(t, p)
            == Ok::<_, ErrorView>((list_of(ds, DatumView::Null), q + 1)),
        forall|last: DatumView, r: int|
            syntax::tok(t, p) is LeftParen && syntax::tok(t, q) is Dot && syntax::datum(t, q + 1)
                == Ok::<_, ErrorView>((last, r)) && syntax::tok(t, r) is RightParen
                ==> syntax::datum(t, p) == Ok::<_, ErrorView>((list_of(ds, last), r + 1)),
        syntax::tok(t, p) is VectorPrefix && syntax::tok(t, q) is RightParen ==> syntax::datum(t, p)
            == Ok::<_, ErrorView>((DatumView::Vector(ds), q + 1)),
{
    lemma_list(t, p + 1, ds, q);
    lemma_data(t, p + 1, ds, q);
    assert(ds + Seq::empty() =~= ds);
}

/// Exact integers from 0 to 255 as data.
pub open spec fn octet_data(bytes: Seq<u8>) -> Seq<DatumView> {
    Seq::new(
        bytes.len(),
        |i: int| DatumView::Number(NumberView::Fixnum(bytes[i] as int)),
    )
}

pub proof fn lemma_octets(t: Seq<SpannedView>, p: int, bytes: Seq<u8>, q: int)
    requires
        soundness::ends(t),
        0 <= p,
        reads_data(t, p, octet_data(bytes), q),
    ensures
        syntax::octets(t, p) == syntax::prepend(bytes, syntax::octets(t, q)),
        p <= q,
    decreases bytes.len(),
{
    let ds = octet_data(bytes);
    if bytes.len() == 0 {
        syntax::lemma_prepend_nothing(syntax::octets(t, q));
        assert(bytes =~= Seq::empty());
    } else {
        lemma_step(t, p);
        let r = syntax::datum(t, p)->Ok_0.1;
        assert(ds.drop_first() =~= octet_data(bytes.drop_first()));
        lemma_octets(t, r, bytes.drop_first(), q);
        assert(ds[0] == DatumView::Number(NumberView::Fixnum(bytes[0] as int)));
        if let Ok((rest, z)) = syntax::octets(t, q) {
            assert(seq![bytes[0]] + (bytes.drop_first() + rest) =~= bytes + rest);
        }
    }
}

/// Exact integers from 0 to 255 behind the prefix of a bytevector are its
/// bytes; any other datum among them is an error at what follows it.
pub proof fn law_bytevectors(t: Seq<SpannedView>, p: int, bytes: Seq<u8>, q: int)
    requires
        soundness::ends(t),
        0 <= p,
        syntax::tok(t, p) is ByteVectorPrefix,
        reads_data(t, p + 1, octet_data(bytes), q),
    ensures
        syntax::tok(t, q) is RightParen ==> syntax::datum(t, p) == Ok::<_, ErrorView>(
            (DatumView::ByteVector(bytes), q + 1),
        ),
        forall|d: DatumView, r: int|
            syntax::datum(t, q) == Ok::<_, ErrorView>((d, r)) && !(
            d matches DatumView::Number(NumberView::Fixnum(n)) && 0 <= n <= 255) ==> syntax::datum(
                t,
                p,
            ) == Err::<(DatumView, int), _>(
                (ErrorView {
                    message: "bytevector must contain exact uint8"@,
                    span: t[r].span,
                }),
            ),
{
    lemma_octets(t, p + 1, bytes, q);
    lemma_step(t, q);
    assert(bytes + Seq::empty() =~= bytes);
}

/// A token that stands for a value is that value as a datum; a mark of
/// quotation before a datum is the list of its name and that datum.
pub proof fn law_simple_data(t: Seq<SpannedView>, p: int)
    ensures
        forall|b: bool|
            syntax::tok(t, p) == TokenView::Boolean(b) ==> syntax::datum(t, p) == Ok::<
                _,
                ErrorView,
            >((DatumView::Boolean(b), p + 1)),
        forall|c: char|
            syntax::tok(t, p) == TokenView::Character(c) ==> syntax::datum(t, p) == Ok::<
                _,
                ErrorView,
            >((DatumView::Character(c), p + 1)),
        forall|n: NumberView|
            syntax::tok(t, p) == TokenView::Number(n) ==> syntax::datum(t, p) == Ok::<
                _,
                ErrorView,
            >((DatumView::Number(n), p + 1)),
        forall|s: Seq<char>|
            syntax::tok(t, p) == TokenView::String(s) ==> syntax::datum(t, p) == Ok::<
                _,
                ErrorView,
            >((DatumView::String(s), p + 1)),
        forall|s: Seq<char>|
            syntax::tok(t, p) == TokenView::Symbol(s) ==> syntax::datum(t, p) == Ok::<
                _,
                ErrorView,
            >((DatumView::Symbol(s), p + 1)),
        forall|d: DatumView, q: int|
            syntax::tok(t, p) is Quote && syntax::datum(t, p + 1) == Ok::<_, ErrorView>((d, q))
                ==> syntax::datum(t, p) == Ok::<_, ErrorView>(
                (list_of(seq![DatumView::Symbol("quote"@), d], DatumView::Null), q),
            ),
        forall|d: DatumView, q: int|
            syntax::tok(t, p) is QuasiQuote && syntax::datum(t, p + 1) == Ok::<_, ErrorView>((d, q))
                ==> syntax::datum(t, p) == Ok::<_, ErrorView>(
                (list_of(seq![DatumView::Symbol("quasiquote"@), d], DatumView::Null), q),
            ),
        forall|d: DatumView, q: int|
            syntax::tok(t, p) is Unquote && syntax::datum(t, p + 1) == Ok::<_, ErrorView>((d, q))
                ==> syntax::datum(t, p) == Ok::<_, ErrorView>(
                (list_of(seq![DatumView::Symbol("unquote"@), d], DatumView::Null), q),
            ),
        forall|d: DatumView, q: int|
            syntax::tok(t, p) is UnquoteSplicing && syntax::datum(t, p + 1) == Ok::<_, ErrorView>(
                (d, q),
            ) ==> syntax::datum(t, p) == Ok::<_, ErrorView>(
                (list_of(seq![DatumView::Symbol("unquote-splicing"@), d], DatumView::Null), q),
            ),
{
    if let Ok((d, q)) = syntax::datum(t, p + 1) {
        lemma_list_of_two(DatumView::Symbol("quote"@), d);
        lemma_list_of_two(DatumView::Symbol("quasiquote"@), d);
        lemma_list_of_two(DatumView::Symbol("unquote"@), d);
        lemma_list_of_two(DatumView::Symbol("unquote-splicing"@), d);
    }
}

proof fn lemma_list_of_two(a: DatumView, b: DatumView)
    ensures
        list_of(seq![a, b], DatumView::Null) == DatumView::Pair(
            Box::new(a),
            Box::new(DatumView::Pair(Box::new(b), Box::new(DatumView::Null))),
        ),
{
    let both = seq![a, b];
    assert(both.drop_first() =~= seq![b]);
    assert(seq![b].drop_first() =~= Seq::empty());
    assert(list_of(Seq::empty(), DatumView::Null) == DatumView::Null);
    assert(list_of(seq![b], DatumView::Null) == DatumView::Pair(
        Box::new(b),
        Box::new(DatumView::Null),
    ));
}

} // verus!
