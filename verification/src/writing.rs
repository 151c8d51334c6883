//! How trees are written as tokens, and that the parser reads them back.
//!
//! The functions `*_tokens` write a tree in the shape that the syntax tree
//! documents for each node. Some trees cannot be written so, because the same
//! tokens mean something else; `writable_*` tells the others.

use crate::comments;
use crate::lexical;
use crate::lexical::{SpannedView, TokenView};
use crate::model::{
    BindingView, BodyView, CaseClauseView, CondClauseView, DatumView, DefinitionView, ExprView,
    FormalsView, MvBindingView, NumberView, TopLevelFormView,
};
use crate::spelling;
use crate::surroundings;
use crate::syntax;
use crate::syntax::Form;
use vstd::prelude::*;

verus! {

// ---- Token sequences ----

/// Whether the tokens `w` stand at `p`.
#[verifier::opaque]
pub open spec fn stands(t: Seq<SpannedView>, p: int, w: Seq<TokenView>) -> bool {
    &&& 0 <= p
    &&& p + w.len() <= t.len()
    &&& forall|k: int| 0 <= k < w.len() ==> #[trigger] w[k] == t[p + k].token
}

/// Of two runs of tokens one behind the other, each stands at its place.
proof fn lemma_stands(t: Seq<SpannedView>, p: int, a: Seq<TokenView>, b: Seq<TokenView>)
    requires
        stands(t, p, a + b),
    ensures
        stands(t, p, a),
        stands(t, p + a.len(), b),
        (a + b).len() == a.len() + b.len(),
{
    reveal(stands);
    assert forall|k: int| 0 <= k < a.len() implies #[trigger] a[k] == t[p + k].token by {
        assert((a + b)[k] == a[k]);
    }
    assert forall|k: int| 0 <= k < b.len() implies #[trigger] b[k] == t[p + a.len() + k].token by {
        assert((a + b)[a.len() + k] == b[k]);
    }
}

/// The first token of those that stand at `p`.
proof fn lemma_first(t: Seq<SpannedView>, p: int, w: Seq<TokenView>)
    requires
        stands(t, p, w),
        w.len() > 0,
    ensures
        syntax::tok(t, p) == w[0],
{
    reveal(stands);
}

/// Tokens between parentheses.
pub open spec fn in_parens(w: Seq<TokenView>) -> Seq<TokenView> {
    seq![TokenView::LeftParen] + w + seq![TokenView::RightParen]
}

proof fn lemma_in_parens(t: Seq<SpannedView>, p: int, w: Seq<TokenView>)
    requires
        stands(t, p, in_parens(w)),
    ensures
        syntax::tok(t, p) is LeftParen,
        stands(t, p + 1, w),
        syntax::tok(t, p + 1 + w.len()) is RightParen,
        in_parens(w).len() == w.len() + 2,
{
    let open = seq![TokenView::LeftParen];
    let close = seq![TokenView::RightParen];
    lemma_stands(t, p, open + w, close);
    lemma_stands(t, p, open, w);
    lemma_first(t, p, open);
    lemma_first(t, p + 1 + w.len(), close);
}

/// A symbol and what follows it.
pub open spec fn headed(name: Seq<char>, w: Seq<TokenView>) -> Seq<TokenView> {
    seq![TokenView::Symbol(name)] + w
}

proof fn lemma_headed(t: Seq<SpannedView>, p: int, name: Seq<char>, w: Seq<TokenView>)
    requires
        stands(t, p, headed(name, w)),
    ensures
        syntax::is_symbol(t, p, name),
        stands(t, p + 1, w),
        headed(name, w).len() == w.len() + 1,
{
    let head = seq![TokenView::Symbol(name)];
    lemma_stands(t, p, head, w);
    lemma_first(t, p, head);
}

// ---- Data ----

pub open spec fn datum_tokens(d: DatumView) -> Seq<TokenView>
    decreases d, 0nat,
{
    match d {
        DatumView::Boolean(b) => seq![TokenView::Boolean(b)],
        DatumView::Character(c) => seq![TokenView::Character(c)],
        DatumView::Number(n) => seq![TokenView::Number(n)],
        DatumView::String(s) => seq![TokenView::String(s)],
        DatumView::Symbol(s) => seq![TokenView::Symbol(s)],
        DatumView::Null => in_parens(Seq::empty()),
        DatumView::Pair(car, cdr) => in_parens(datum_tokens(*car) + tail_tokens(*cdr)),
        DatumView::Vector(items) => seq![TokenView::VectorPrefix] + data_tokens(items)
            + seq![TokenView::RightParen],
        DatumView::ByteVector(bytes) => seq![TokenView::ByteVectorPrefix] + octet_tokens(bytes)
            + seq![TokenView::RightParen],
    }
}

/// The rest of a list, up to its closing parenthesis.
pub open spec fn tail_tokens(d: DatumView) -> Seq<TokenView>
    decreases d, 1nat,
{
    match d {
        DatumView::Null => Seq::empty(),
        DatumView::Pair(car, cdr) => datum_tokens(*car) + tail_tokens(*cdr),
        _ => seq![TokenView::Dot] + datum_tokens(d),
    }
}

pub open spec fn data_tokens(v: Seq<DatumView>) -> Seq<TokenView>
    decreases v, 0nat,
{
    if v.len() == 0 {
        Seq::empty()
    } else {
        datum_tokens(v[0]) + data_tokens(v.subrange(1, v.len() as int))
    }
}

pub open spec fn octet_tokens(v: Seq<u8>) -> Seq<TokenView> {
    Seq::new(v.len(), |i: int| TokenView::Number(NumberView::Fixnum(v[i] as int)))
}

/// A written datum begins with a token that begins a datum.
proof fn lemma_datum_first(d: DatumView)
    ensures
        datum_tokens(d).len() > 0,
        !(datum_tokens(d)[0] is RightParen),
        !(datum_tokens(d)[0] is Eof),
        !(datum_tokens(d)[0] is Dot),
        !(datum_tokens(d)[0] is DatumComment),
{
}

proof fn read_datum(t: Seq<SpannedView>, p: int, d: DatumView)
    requires
        stands(t, p, datum_tokens(d)),
    ensures
        syntax::datum(t, p) == Ok::<_, lexical::ErrorView>((d, p + datum_tokens(d).len())),
    decreases d, 0nat,
{
    let w = datum_tokens(d);
    lemma_datum_first(d);
    lemma_first(t, p, w);
    match d {
        DatumView::Null => {
            lemma_in_parens(t, p, Seq::empty());
            assert(syntax::list_rest(t, p + 1)->Ok_0.0 is Null);
        },
        DatumView::Pair(car, cdr) => {
            let first = datum_tokens(*car);
            let rest = tail_tokens(*cdr);
            lemma_in_parens(t, p, first + rest);
            lemma_stands(t, p + 1, first, rest);
            lemma_datum_first(*car);
            lemma_first(t, p + 1, first);
            read_datum(t, p + 1, *car);
            read_tail(t, p + 1 + first.len(), *cdr);
        },
        DatumView::Vector(items) => {
            let open = seq![TokenView::VectorPrefix];
            let inner = data_tokens(items);
            let close = seq![TokenView::RightParen];
            lemma_stands(t, p, open + inner, close);
            lemma_stands(t, p, open, inner);
            lemma_first(t, p + 1 + inner.len(), close);
            read_data(t, p + 1, items);
        },
        DatumView::ByteVector(bytes) => {
            let open = seq![TokenView::ByteVectorPrefix];
            let inner = octet_tokens(bytes);
            let close = seq![TokenView::RightParen];
            lemma_stands(t, p, open + inner, close);
            lemma_stands(t, p, open, inner);
            lemma_first(t, p + 1 + inner.len(), close);
            read_octets(t, p + 1, bytes);
        },
        _ => {},
    }
}

proof fn read_tail(t: Seq<SpannedView>, p: int, d: DatumView)
    requires
        stands(t, p, tail_tokens(d)),
        syntax::tok(t, p + tail_tokens(d).len()) is RightParen,
    ensures
        syntax::list_rest(t, p) == Ok::<_, lexical::ErrorView>((d, p + tail_tokens(d).len())),
    decreases d, 1nat,
{
    match d {
        DatumView::Null => {},
        DatumView::Pair(car, cdr) => {
            let first = datum_tokens(*car);
            lemma_stands(t, p, first, tail_tokens(*cdr));
            lemma_datum_first(*car);
            lemma_first(t, p, first);
            read_datum(t, p, *car);
            read_tail(t, p + first.len(), *cdr);
        },
        _ => {
            let dot = seq![TokenView::Dot];
            lemma_stands(t, p, dot, datum_tokens(d));
            lemma_first(t, p, dot);
            read_datum(t, p + 1, d);
        },
    }
}

proof fn read_data(t: Seq<SpannedView>, p: int, v: Seq<DatumView>)
    requires
        stands(t, p, data_tokens(v)),
        syntax::at_close(t, p + data_tokens(v).len()),
    ensures
        syntax::data(t, p) == Ok::<_, lexical::ErrorView>((v, p + data_tokens(v).len())),
    decreases v, 0nat,
{
    if v.len() == 0 {
        assert(v =~= Seq::empty());
    } else {
        let others = v.subrange(1, v.len() as int);
        let first = datum_tokens(v[0]);
        lemma_stands(t, p, first, data_tokens(others));
        lemma_datum_first(v[0]);
        lemma_first(t, p, first);
        read_datum(t, p, v[0]);
        read_data(t, p + first.len(), others);
        assert(v =~= seq![v[0]] + others);
    }
}

proof fn read_octets(t: Seq<SpannedView>, p: int, v: Seq<u8>)
    requires
        stands(t, p, octet_tokens(v)),
        syntax::at_close(t, p + v.len()),
    ensures
        syntax::octets(t, p) == Ok::<_, lexical::ErrorView>((v, p + v.len())),
    decreases v.len(),
{
    if v.len() == 0 {
        assert(v =~= Seq::empty());
    } else {
        let others = v.subrange(1, v.len() as int);
        let first = seq![TokenView::Number(NumberView::Fixnum(v[0] as int))];
        assert(octet_tokens(v) =~= first + octet_tokens(others));
        lemma_stands(t, p, first, octet_tokens(others));
        lemma_first(t, p, first);
        assert(syntax::datum(t, p)->Ok_0.0 is Number);
        read_octets(t, p + 1, others);
        assert(v =~= seq![v[0]] + others);
    }
}

// ---- Formals ----

/// The tokens of names.
pub open spec fn name_tokens(v: Seq<Seq<char>>) -> Seq<TokenView> {
    Seq::new(v.len(), |i: int| TokenView::Symbol(v[i]))
}

/// Formals inside their parentheses.
pub open spec fn formals_rest_tokens(f: FormalsView) -> Seq<TokenView> {
    name_tokens(f.fixed) + match f.rest {
        Some(name) => seq![TokenView::Dot, TokenView::Symbol(name)],
        None => Seq::empty(),
    }
}

pub open spec fn formals_tokens(f: FormalsView) -> Seq<TokenView> {
    match f.rest {
        Some(name) if f.fixed.len() == 0 => seq![TokenView::Symbol(name)],
        _ => in_parens(formals_rest_tokens(f)),
    }
}

proof fn read_formals_rest(t: Seq<SpannedView>, p: int, f: FormalsView)
    requires
        stands(t, p, formals_rest_tokens(f)),
        syntax::tok(t, p + formals_rest_tokens(f).len()) is RightParen,
    ensures
        syntax::formals_rest(t, p) == Ok::<_, lexical::ErrorView>(
            (f, p + formals_rest_tokens(f).len()),
        ),
    decreases f.fixed.len(),
{
    if f.fixed.len() == 0 {
        assert(f.fixed =~= Seq::empty());
        match f.rest {
            Some(name) => {
                assert(formals_rest_tokens(f) =~= seq![TokenView::Dot] + seq![
                    TokenView::Symbol(name),
                ]);
                lemma_stands(t, p, seq![TokenView::Dot], seq![TokenView::Symbol(name)]);
                lemma_first(t, p, seq![TokenView::Dot]);
                lemma_first(t, p + 1, seq![TokenView::Symbol(name)]);
            },
            None => {},
        }
    } else {
        let others = FormalsView { fixed: f.fixed.subrange(1, f.fixed.len() as int), rest: f.rest };
        let first = seq![TokenView::Symbol(f.fixed[0])];
        assert(formals_rest_tokens(f) =~= first + formals_rest_tokens(others));
        lemma_stands(t, p, first, formals_rest_tokens(others));
        lemma_first(t, p, first);
        read_formals_rest(t, p + 1, others);
        assert(f.fixed =~= seq![f.fixed[0]] + others.fixed);
    }
}

proof fn read_formals(t: Seq<SpannedView>, p: int, f: FormalsView)
    requires
        stands(t, p, formals_tokens(f)),
    ensures
        syntax::formals(t, p) == Ok::<_, lexical::ErrorView>((f, p + formals_tokens(f).len())),
{
    if f.rest is Some && f.fixed.len() == 0 {
        lemma_first(t, p, formals_tokens(f));
        assert(f.fixed =~= Seq::empty());
    } else {
        lemma_in_parens(t, p, formals_rest_tokens(f));
        read_formals_rest(t, p + 1, f);
    }
}

// ---- Expressions ----

/// The keyword of a special form.
pub open spec fn keyword(form: Form) -> Seq<char> {
    match form {
        Form::Quote => "quote"@,
        Form::Lambda => "lambda"@,
        Form::If => "if"@,
        Form::SetBang => "set!"@,
        Form::Cond => "cond"@,
        Form::Case => "case"@,
        Form::When => "when"@,
        Form::Unless => "unless"@,
        Form::And => "and"@,
        Form::Or => "or"@,
        Form::Let => "let"@,
        Form::LetStar => "let*"@,
        Form::LetRec => "letrec"@,
        Form::LetRecStar => "letrec*"@,
        Form::LetValues => "let-values"@,
        Form::LetStarValues => "let*-values"@,
        Form::Begin => "begin"@,
    }
}

/// A special form in parentheses, with its keyword.
pub open spec fn form_tokens(form: Form, parts: Seq<TokenView>) -> Seq<TokenView> {
    in_parens(headed(keyword(form), parts))
}

/// The special form that an expression is, if it is one.
pub open spec fn form_of(e: ExprView) -> Option<Form> {
    match e {
        ExprView::Literal(_) | ExprView::Var(_) => None,
        ExprView::Quote(_) => Some(Form::Quote),
        ExprView::Lambda { .. } => Some(Form::Lambda),
        ExprView::If { .. } => Some(Form::If),
        ExprView::SetBang { .. } => Some(Form::SetBang),
        ExprView::Cond(_) => Some(Form::Cond),
        ExprView::Case { .. } => Some(Form::Case),
        ExprView::When { .. } => Some(Form::When),
        ExprView::Unless { .. } => Some(Form::Unless),
        ExprView::And(_) => Some(Form::And),
        ExprView::Or(_) => Some(Form::Or),
        ExprView::Let { .. } => Some(Form::Let),
        ExprView::LetStar { .. } => Some(Form::LetStar),
        ExprView::LetRec { .. } => Some(Form::LetRec),
        ExprView::LetRecStar { .. } => Some(Form::LetRecStar),
        ExprView::LetValues { .. } => Some(Form::LetValues),
        ExprView::LetStarValues { .. } => Some(Form::LetStarValues),
        ExprView::Begin(_) => Some(Form::Begin),
        ExprView::Application { .. } => None,
    }
}

pub open spec fn expr_tokens(e: ExprView) -> Seq<TokenView>
    decreases e, 1nat,
{
    match form_of(e) {
        Some(form) => form_tokens(form, parts_tokens(e)),
        None => parts_tokens(e),
    }
}

/// What is written of an expression: of a special form, what stands behind its
/// keyword.
pub open spec fn parts_tokens(e: ExprView) -> Seq<TokenView>
    decreases e, 0nat,
{
    match e {
        ExprView::Literal(d) => datum_tokens(d),
        ExprView::Var(name) => seq![TokenView::Symbol(name)],
        ExprView::Quote(d) => datum_tokens(d),
        ExprView::Lambda { formals, body } => formals_tokens(formals) + body_tokens(body),
        ExprView::If { test, consequent, alternate } => expr_tokens(*test) + (expr_tokens(
            *consequent,
        ) + match alternate {
            Some(a) => expr_tokens(*a),
            None => Seq::empty(),
        }),
        ExprView::SetBang { var, value } => headed(var, expr_tokens(*value)),
        ExprView::Cond(clauses) => cond_clauses_tokens(clauses),
        ExprView::Case { key, clauses } => expr_tokens(*key) + case_clauses_tokens(clauses),
        ExprView::When { test, body } => expr_tokens(*test) + exprs_tokens(body),
        ExprView::Unless { test, body } => expr_tokens(*test) + exprs_tokens(body),
        ExprView::And(es) => exprs_tokens(es),
        ExprView::Or(es) => exprs_tokens(es),
        ExprView::Let { name, bindings, body } => match name {
            Some(n) => headed(n, in_parens(bindings_tokens(bindings)) + body_tokens(body)),
            None => in_parens(bindings_tokens(bindings)) + body_tokens(body),
        },
        ExprView::LetStar { bindings, body } => in_parens(bindings_tokens(bindings))
            + body_tokens(body),
        ExprView::LetRec { bindings, body } => in_parens(bindings_tokens(bindings))
            + body_tokens(body),
        ExprView::LetRecStar { bindings, body } => in_parens(bindings_tokens(bindings))
            + body_tokens(body),
        ExprView::LetValues { bindings, body } => in_parens(mv_bindings_tokens(bindings))
            + body_tokens(body),
        ExprView::LetStarValues { bindings, body } => in_parens(mv_bindings_tokens(bindings))
            + body_tokens(body),
        ExprView::Begin(es) => exprs_tokens(es),
        ExprView::Application { operator, operands } => in_parens(
            expr_tokens(*operator) + exprs_tokens(operands),
        ),
    }
}

pub open spec fn body_tokens(b: BodyView) -> Seq<TokenView>
    decreases b, 0nat,
{
    definitions_tokens(b.definitions) + exprs_tokens(b.expressions)
}

pub open spec fn definition_tokens(d: DefinitionView) -> Seq<TokenView>
    decreases d, 0nat,
{
    match d {
        DefinitionView::Variable { name, init } => in_parens(
            headed("define"@, headed(name, match init {
                Some(e) => expr_tokens(*e),
                None => Seq::empty(),
            })),
        ),
        DefinitionView::Function { name, formals, body } => in_parens(
            headed(
                "define"@,
                in_parens(headed(name, formals_rest_tokens(formals))) + body_tokens(body),
            ),
        ),
        DefinitionView::Syntax { keyword, init } => in_parens(
            headed("define-syntax"@, headed(keyword, expr_tokens(*init))),
        ),
    }
}

pub open spec fn binding_tokens(b: BindingView) -> Seq<TokenView>
    decreases b, 0nat,
{
    in_parens(headed(b.name, expr_tokens(*b.init)))
}

pub open spec fn mv_binding_tokens(b: MvBindingView) -> Seq<TokenView>
    decreases b, 0nat,
{
    in_parens(formals_tokens(b.formals) + expr_tokens(*b.init))
}

pub open spec fn cond_clause_tokens(c: CondClauseView) -> Seq<TokenView>
    decreases c, 0nat,
{
    match c {
        CondClauseView::Clause { test, body } => in_parens(
            expr_tokens(*test) + exprs_tokens(body),
        ),
        CondClauseView::Arrow { test, recipient } => in_parens(
            expr_tokens(*test) + headed("=>"@, expr_tokens(*recipient)),
        ),
        CondClauseView::Else { body } => in_parens(headed("else"@, exprs_tokens(body))),
    }
}

pub open spec fn case_clause_tokens(c: CaseClauseView) -> Seq<TokenView>
    decreases c, 0nat,
{
    match c {
        CaseClauseView::Matches { data, body } => in_parens(
            in_parens(data_tokens(data)) + exprs_tokens(body),
        ),
        CaseClauseView::Else { body } => in_parens(headed("else"@, exprs_tokens(body))),
    }
}

pub open spec fn top_form_tokens(f: TopLevelFormView) -> Seq<TokenView>
    decreases f, 0nat,
{
    match f {
        TopLevelFormView::Definition(d) => definition_tokens(d),
        TopLevelFormView::Expr(e) => expr_tokens(e),
        TopLevelFormView::Begin(forms) => in_parens(headed("begin"@, forms_tokens(forms))),
    }
}

pub open spec fn exprs_tokens(v: Seq<ExprView>) -> Seq<TokenView>
    decreases v, 0nat,
{
    if v.len() == 0 {
        Seq::empty()
    } else {
        expr_tokens(v[0]) + exprs_tokens(v.subrange(1, v.len() as int))
    }
}

pub open spec fn definitions_tokens(v: Seq<DefinitionView>) -> Seq<TokenView>
    decreases v, 0nat,
{
    if v.len() == 0 {
        Seq::empty()
    } else {
        definition_tokens(v[0]) + definitions_tokens(v.subrange(1, v.len() as int))
    }
}

pub open spec fn bindings_tokens(v: Seq<BindingView>) -> Seq<TokenView>
    decreases v, 0nat,
{
    if v.len() == 0 {
        Seq::empty()
    } else {
        binding_tokens(v[0]) + bindings_tokens(v.subrange(1, v.len() as int))
    }
}

pub open spec fn mv_bindings_tokens(v: Seq<MvBindingView>) -> Seq<TokenView>
    decreases v, 0nat,
{
    if v.len() == 0 {
        Seq::empty()
    } else {
        mv_binding_tokens(v[0]) + mv_bindings_tokens(v.subrange(1, v.len() as int))
    }
}

pub open spec fn cond_clauses_tokens(v: Seq<CondClauseView>) -> Seq<TokenView>
    decreases v, 0nat,
{
    if v.len() == 0 {
        Seq::empty()
    } else {
        cond_clause_tokens(v[0]) + cond_clauses_tokens(v.subrange(1, v.len() as int))
    }
}

pub open spec fn case_clauses_tokens(v: Seq<CaseClauseView>) -> Seq<TokenView>
    decreases v, 0nat,
{
    if v.len() == 0 {
        Seq::empty()
    } else {
        case_clause_tokens(v[0]) + case_clauses_tokens(v.subrange(1, v.len() as int))
    }
}

pub open spec fn forms_tokens(v: Seq<TopLevelFormView>) -> Seq<TokenView>
    decreases v, 0nat,
{
    if v.len() == 0 {
        Seq::empty()
    } else {
        top_form_tokens(v[0]) + forms_tokens(v.subrange(1, v.len() as int))
    }
}

// ---- Trees that can be written ----

/// Whether a datum is an expression by itself.
pub open spec fn self_evaluating(d: DatumView) -> bool {
    match d {
        DatumView::Symbol(_) | DatumView::Null | DatumView::Pair(_, _) => false,
        _ => true,
    }
}

/// Whether an expression is written like a definition.
pub open spec fn definition_like(e: ExprView) -> bool {
    match e {
        ExprView::Application { operator, operands } => *operator == ExprView::Var("define"@)
            || *operator == ExprView::Var("define-syntax"@),
        _ => false,
    }
}

/// Whether an expression, written as tokens, means that expression. A literal
/// has to evaluate to itself; the operator of an application must not be a
/// keyword; and so inside.
pub open spec fn writable_expr(e: ExprView) -> bool
    decreases e,
{
    match e {
        ExprView::Literal(d) => self_evaluating(d),
        ExprView::Var(_) | ExprView::Quote(_) => true,
        ExprView::Lambda { formals, body } => writable_body(body),
        ExprView::If { test, consequent, alternate } => {
            &&& writable_expr(*test)
            &&& writable_expr(*consequent)
            &&& match alternate {
                Some(a) => writable_expr(*a),
                None => true,
            }
        },
        ExprView::SetBang { var, value } => writable_expr(*value),
        ExprView::Cond(clauses) => writable_cond_clauses(clauses),
        ExprView::Case { key, clauses } => writable_expr(*key) && writable_case_clauses(clauses),
        ExprView::When { test, body } => writable_expr(*test) && writable_exprs(body),
        ExprView::Unless { test, body } => writable_expr(*test) && writable_exprs(body),
        ExprView::And(es) => writable_exprs(es),
        ExprView::Or(es) => writable_exprs(es),
        ExprView::Let { name, bindings, body } => {
            &&& writable_bindings(bindings)
            &&& writable_body(body)
        },
        ExprView::LetStar { bindings, body } => writable_bindings(bindings) && writable_body(body),
        ExprView::LetRec { bindings, body } => writable_bindings(bindings) && writable_body(body),
        ExprView::LetRecStar { bindings, body } => writable_bindings(bindings) && writable_body(
            body,
        ),
        ExprView::LetValues { bindings, body } => writable_mv_bindings(bindings) && writable_body(
            body,
        ),
        ExprView::LetStarValues { bindings, body } => writable_mv_bindings(bindings)
            && writable_body(body),
        ExprView::Begin(es) => writable_exprs(es),
        ExprView::Application { operator, operands } => {
            &&& writable_expr(*operator)
            &&& writable_exprs(operands)
            &&& match *operator {
                ExprView::Var(name) => syntax::form_named(name) is None,
                _ => true,
            }
        },
    }
}

/// A body holds an expression, and its first one does not look like a
/// definition.
pub open spec fn writable_body(b: BodyView) -> bool
    decreases b,
{
    &&& writable_definitions(b.definitions)
    &&& writable_exprs(b.expressions)
    &&& b.expressions.len() > 0
    &&& !definition_like(b.expressions[0])
}

pub open spec fn writable_definition(d: DefinitionView) -> bool
    decreases d,
{
    match d {
        DefinitionView::Variable { name, init } => match init {
            Some(e) => writable_expr(*e),
            None => true,
        },
        DefinitionView::Function { name, formals, body } => writable_body(body),
        DefinitionView::Syntax { keyword, init } => writable_expr(*init),
    }
}

pub open spec fn writable_binding(b: BindingView) -> bool
    decreases b,
{
    writable_expr(*b.init)
}

pub open spec fn writable_mv_binding(b: MvBindingView) -> bool
    decreases b,
{
    writable_expr(*b.init)
}

/// The test of a clause is not the word `else`, and `=>` does not follow it
/// by chance.
pub open spec fn writable_cond_clause(c: CondClauseView) -> bool
    decreases c,
{
    match c {
        CondClauseView::Clause { test, body } => {
            &&& writable_expr(*test)
            &&& writable_exprs(body)
            &&& *test != ExprView::Var("else"@)
            &&& body.len() > 0 ==> body[0] != ExprView::Var("=>"@)
        },
        CondClauseView::Arrow { test, recipient } => {
            &&& writable_expr(*test)
            &&& writable_expr(*recipient)
            &&& *test != ExprView::Var("else"@)
        },
        CondClauseView::Else { body } => writable_exprs(body),
    }
}

pub open spec fn writable_case_clause(c: CaseClauseView) -> bool
    decreases c,
{
    match c {
        CaseClauseView::Matches { data, body } => writable_exprs(body),
        CaseClauseView::Else { body } => writable_exprs(body),
    }
}

/// An expression at the top level looks neither like a definition nor like a
/// splicing `begin`.
pub open spec fn writable_form(f: TopLevelFormView) -> bool
    decreases f,
{
    match f {
        TopLevelFormView::Definition(d) => writable_definition(d),
        TopLevelFormView::Expr(e) => writable_expr(e) && !definition_like(e) && !(e is Begin),
        TopLevelFormView::Begin(forms) => writable_forms(forms),
    }
}

pub open spec fn writable_exprs(v: Seq<ExprView>) -> bool
    decreases v,
{
    forall|i: int| 0 <= i < v.len() ==> writable_expr(#[trigger] v[i])
}

pub open spec fn writable_definitions(v: Seq<DefinitionView>) -> bool
    decreases v,
{
    forall|i: int| 0 <= i < v.len() ==> writable_definition(#[trigger] v[i])
}

pub open spec fn writable_bindings(v: Seq<BindingView>) -> bool
    decreases v,
{
    forall|i: int| 0 <= i < v.len() ==> writable_binding(#[trigger] v[i])
}

pub open spec fn writable_mv_bindings(v: Seq<MvBindingView>) -> bool
    decreases v,
{
    forall|i: int| 0 <= i < v.len() ==> writable_mv_binding(#[trigger] v[i])
}

pub open spec fn writable_cond_clauses(v: Seq<CondClauseView>) -> bool
    decreases v,
{
    forall|i: int| 0 <= i < v.len() ==> writable_cond_clause(#[trigger] v[i])
}

pub open spec fn writable_case_clauses(v: Seq<CaseClauseView>) -> bool
    decreases v,
{
    forall|i: int| 0 <= i < v.len() ==> writable_case_clause(#[trigger] v[i])
}

pub open spec fn writable_forms(v: Seq<TopLevelFormView>) -> bool
    decreases v,
{
    forall|i: int| 0 <= i < v.len() ==> writable_form(#[trigger] v[i])
}

// ---- Reading back ----

/// The keywords are told apart, and from the words of definitions.
pub proof fn lemma_keywords(form: Form)
    ensures
        syntax::form_named(keyword(form)) == Some(form),
        syntax::form_named("define"@) is None,
        syntax::form_named("define-syntax"@) is None,
        keyword(form) == "begin"@ <==> form is Begin,
{
    reveal_strlit("quote");
    reveal_strlit("lambda");
    reveal_strlit("if");
    reveal_strlit("set!");
    reveal_strlit("cond");
    reveal_strlit("case");
    reveal_strlit("when");
    reveal_strlit("unless");
    reveal_strlit("and");
    reveal_strlit("or");
    reveal_strlit("let");
    reveal_strlit("let*");
    reveal_strlit("letrec");
    reveal_strlit("letrec*");
    reveal_strlit("let-values");
    reveal_strlit("let*-values");
    reveal_strlit("begin");
    reveal_strlit("define");
    reveal_strlit("define-syntax");
    assert("quote"@.len() == 5);
    assert("lambda"@.len() == 6);
    assert("if"@.len() == 2);
    assert("set!"@.len() == 4);
    assert("cond"@.len() == 4);
    assert("case"@.len() == 4);
    assert("when"@.len() == 4);
    assert("unless"@.len() == 6);
    assert("and"@.len() == 3);
    assert("or"@.len() == 2);
    assert("let"@.len() == 3);
    assert("let*"@.len() == 4);
    assert("letrec"@.len() == 6);
    assert("letrec*"@.len() == 7);
    assert("let-values"@.len() == 10);
    assert("let*-values"@.len() == 11);
    assert("begin"@.len() == 5);
    assert("define"@.len() == 6);
    assert("define-syntax"@.len() == 13);
    assert("quote"@[0] == 'q');
    assert("begin"@[0] == 'b');
    assert("lambda"@[0] == 'l' && "lambda"@[1] == 'a');
    assert("unless"@[0] == 'u');
    assert("letrec"@[0] == 'l' && "letrec"@[1] == 'e');
    assert("define"@[0] == 'd');
    assert("if"@[0] == 'i');
    assert("or"@[0] == 'o');
    assert("set!"@[0] == 's');
    assert("cond"@[0] == 'c' && "cond"@[1] == 'o');
    assert("case"@[0] == 'c' && "case"@[1] == 'a');
    assert("when"@[0] == 'w');
    assert("let*"@[0] == 'l');
    assert("and"@[0] == 'a');
    assert("let"@[0] == 'l');
}

proof fn lemma_form(t: Seq<SpannedView>, p: int, form: Form, parts: Seq<TokenView>)
    requires
        stands(t, p, form_tokens(form, parts)),
    ensures
        syntax::expr(t, p) == syntax::special_form(t, p + 2, form),
        stands(t, p + 2, parts),
        syntax::tok(t, p + 2 + parts.len()) is RightParen,
        form_tokens(form, parts).len() == parts.len() + 3,
{
    lemma_in_parens(t, p, headed(keyword(form), parts));
    lemma_headed(t, p + 1, keyword(form), parts);
    lemma_keywords(form);
    assert(syntax::list_expr(t, p + 1) == syntax::special_form(t, p + 2, form));
}

/// What a written expression begins with.
proof fn lemma_expr_first(e: ExprView)
    requires
        writable_expr(e),
    ensures
        expr_tokens(e).len() > 0,
        !(expr_tokens(e)[0] is RightParen),
        !(expr_tokens(e)[0] is Eof),
        !(expr_tokens(e)[0] is Dot),
        !(expr_tokens(e)[0] is DatumComment),
        expr_tokens(e)[0] matches TokenView::Symbol(name) ==> e == ExprView::Var(name),
{
    match e {
        ExprView::Literal(d) => lemma_datum_first(d),
        _ => {},
    }
}

/// A written expression looks like a definition, or like a splicing `begin`,
/// only if it is said to.
proof fn lemma_expr_second(t: Seq<SpannedView>, p: int, e: ExprView)
    requires
        writable_expr(e),
        stands(t, p, expr_tokens(e)),
    ensures
        syntax::at_definition(t, p) ==> definition_like(e),
        syntax::tok(t, p) is LeftParen && syntax::is_symbol(t, p + 1, "begin"@) ==> e is Begin,
{
    lemma_expr_first(e);
    lemma_first(t, p, expr_tokens(e));
    lemma_keywords(Form::Begin);
    match e {
        ExprView::Literal(d) => {},
        ExprView::Var(_) => {},
        ExprView::Application { operator, operands } => {
            let first = expr_tokens(*operator);
            let rest = exprs_tokens(operands);
            lemma_in_parens(t, p, first + rest);
            lemma_stands(t, p + 1, first, rest);
            lemma_expr_first(*operator);
            lemma_first(t, p + 1, first);
        },
        _ => {
            let form = form_of(e)->0;
            lemma_keywords(form);
            lemma_in_parens(t, p, headed(keyword(form), parts_tokens(e)));
            lemma_headed(t, p + 1, keyword(form), parts_tokens(e));
        },
    }
}

proof fn read_expr(t: Seq<SpannedView>, p: int, e: ExprView)
    requires
        writable_expr(e),
        stands(t, p, expr_tokens(e)),
    ensures
        syntax::expr(t, p) == Ok::<_, lexical::ErrorView>((e, p + expr_tokens(e).len())),
    decreases e, 2nat,
{
    lemma_expr_first(e);
    lemma_first(t, p, expr_tokens(e));
    match e {
        ExprView::Literal(d) => read_datum(t, p, d),
        ExprView::Var(_) => {},
        ExprView::Application { operator, operands } => {
            let first = expr_tokens(*operator);
            let rest = exprs_tokens(operands);
            lemma_in_parens(t, p, first + rest);
            lemma_stands(t, p + 1, first, rest);
            lemma_expr_first(*operator);
            lemma_first(t, p + 1, first);
            read_expr(t, p + 1, *operator);
            read_exprs(t, p + 1 + first.len(), operands);
            assert(syntax::form_at(t, p + 1) is None);
            assert(syntax::list_expr(t, p + 1) == syntax::application(t, p + 1));
        },
        _ => {
            lemma_form(t, p, form_of(e)->0, parts_tokens(e));
            read_special(t, p + 2, e);
        },
    }
}

/// A special form is read from its parts.
proof fn read_special(t: Seq<SpannedView>, p: int, e: ExprView)
    requires
        form_of(e) is Some,
        writable_expr(e),
        stands(t, p, parts_tokens(e)),
        syntax::tok(t, p + parts_tokens(e).len()) is RightParen,
    ensures
        syntax::special_form(t, p, form_of(e)->0) == Ok::<_, lexical::ErrorView>(
            (e, p + parts_tokens(e).len() + 1),
        ),
    decreases e, 1nat,
{
    match e {
        ExprView::Quote(d) => read_datum(t, p, d),
        ExprView::Lambda { .. } => read_lambda(t, p, e),
        ExprView::If { .. } => read_if(t, p, e),
        ExprView::SetBang { .. } => read_set(t, p, e),
        ExprView::Cond(clauses) => read_cond_clauses(t, p, clauses),
        ExprView::Case { .. } => read_case(t, p, e),
        ExprView::When { .. } | ExprView::Unless { .. } => read_when_unless(t, p, e),
        ExprView::And(es) | ExprView::Or(es) | ExprView::Begin(es) => read_exprs(t, p, es),
        ExprView::Let { .. } => read_let(t, p, e),
        ExprView::LetStar { .. } => read_let_variant(t, p, e),
        ExprView::LetRec { .. } => read_let_variant(t, p, e),
        ExprView::LetRecStar { .. } => read_let_variant(t, p, e),
        ExprView::LetValues { .. } | ExprView::LetStarValues { .. } => read_let_values(t, p, e),
        _ => {},
    }
}

proof fn read_lambda(t: Seq<SpannedView>, p: int, e: ExprView)
    requires
        e is Lambda,
        writable_expr(e),
        stands(t, p, parts_tokens(e)),
        syntax::tok(t, p + parts_tokens(e).len()) is RightParen,
    ensures
        syntax::special_form(t, p, form_of(e)->0) == Ok::<_, lexical::ErrorView>(
            (e, p + parts_tokens(e).len() + 1),
        ),
    decreases e, 0nat,
{
    if let ExprView::Lambda { formals, body } = e {
        let first = formals_tokens(formals);
        lemma_stands(t, p, first, body_tokens(body));
        read_formals(t, p, formals);
        read_body(t, p + first.len(), body);
        lemma_formals_first(formals);
        assert(syntax::lambda(t, p)
            == Ok::<_, lexical::ErrorView>((e, p + parts_tokens(e).len() + 1)));
    }
}

proof fn read_if(t: Seq<SpannedView>, p: int, e: ExprView)
    requires
        e is If,
        writable_expr(e),
        stands(t, p, parts_tokens(e)),
        syntax::tok(t, p + parts_tokens(e).len()) is RightParen,
    ensures
        syntax::special_form(t, p, form_of(e)->0) == Ok::<_, lexical::ErrorView>(
            (e, p + parts_tokens(e).len() + 1),
        ),
    decreases e, 0nat,
{
    if let ExprView::If { test, consequent, alternate } = e {
        let first = expr_tokens(*test);
        let second = expr_tokens(*consequent);
        let third = match alternate {
            Some(a) => expr_tokens(*a),
            None => Seq::empty(),
        };
        lemma_stands(t, p, first, second + third);
        lemma_stands(t, p + first.len(), second, third);
        lemma_expr_first(*test);
        lemma_expr_first(*consequent);
        read_expr(t, p, *test);
        read_expr(t, p + first.len(), *consequent);
        if let Some(a) = alternate {
            lemma_expr_first(*a);
            lemma_first(t, p + first.len() + second.len(), third);
            read_expr(t, p + first.len() + second.len(), *a);
        }
        assert(syntax::if_form(t, p)
            == Ok::<_, lexical::ErrorView>((e, p + parts_tokens(e).len() + 1)));
    }
}

proof fn read_set(t: Seq<SpannedView>, p: int, e: ExprView)
    requires
        e is SetBang,
        writable_expr(e),
        stands(t, p, parts_tokens(e)),
        syntax::tok(t, p + parts_tokens(e).len()) is RightParen,
    ensures
        syntax::special_form(t, p, form_of(e)->0) == Ok::<_, lexical::ErrorView>(
            (e, p + parts_tokens(e).len() + 1),
        ),
    decreases e, 0nat,
{
    if let ExprView::SetBang { var, value } = e {
        lemma_headed(t, p, var, expr_tokens(*value));
        read_expr(t, p + 1, *value);
        assert(syntax::set_form(t, p)
            == Ok::<_, lexical::ErrorView>((e, p + parts_tokens(e).len() + 1)));
    }
}

proof fn read_case(t: Seq<SpannedView>, p: int, e: ExprView)
    requires
        e is Case,
        writable_expr(e),
        stands(t, p, parts_tokens(e)),
        syntax::tok(t, p + parts_tokens(e).len()) is RightParen,
    ensures
        syntax::special_form(t, p, form_of(e)->0) == Ok::<_, lexical::ErrorView>(
            (e, p + parts_tokens(e).len() + 1),
        ),
    decreases e, 0nat,
{
    if let ExprView::Case { key, clauses } = e {
        let first = expr_tokens(*key);
        lemma_stands(t, p, first, case_clauses_tokens(clauses));
        lemma_expr_first(*key);
        read_expr(t, p, *key);
        read_case_clauses(t, p + first.len(), clauses);
        assert(syntax::case_form(t, p)
            == Ok::<_, lexical::ErrorView>((e, p + parts_tokens(e).len() + 1)));
    }
}

proof fn read_when_unless(t: Seq<SpannedView>, p: int, e: ExprView)
    requires
        e is When || e is Unless,
        writable_expr(e),
        stands(t, p, parts_tokens(e)),
        syntax::tok(t, p + parts_tokens(e).len()) is RightParen,
    ensures
        syntax::special_form(t, p, form_of(e)->0) == Ok::<_, lexical::ErrorView>(
            (e, p + parts_tokens(e).len() + 1),
        ),
    decreases e, 0nat,
{
    match e {
        ExprView::When { test, body } | ExprView::Unless { test, body } => {
            let first = expr_tokens(*test);
            lemma_stands(t, p, first, exprs_tokens(body));
            lemma_expr_first(*test);
            read_expr(t, p, *test);
            read_exprs(t, p + first.len(), body);
            assert(syntax::tested_body(t, p) == Ok::<_, lexical::ErrorView>(
                ((*test, body), p + parts_tokens(e).len() + 1),
            ));
        },
        _ => {},
    }
}

#[verifier::rlimit(40)]
proof fn read_let(t: Seq<SpannedView>, p: int, e: ExprView)
    requires
        e is Let,
        writable_expr(e),
        stands(t, p, parts_tokens(e)),
        syntax::tok(t, p + parts_tokens(e).len()) is RightParen,
    ensures
        syntax::special_form(t, p, form_of(e)->0) == Ok::<_, lexical::ErrorView>(
            (e, p + parts_tokens(e).len() + 1),
        ),
    decreases e, 0nat,
{
    if let ExprView::Let { name, bindings, body } = e {
        let items = bindings_tokens(bindings);
        let rest = body_tokens(body);
        let start = if name is Some {
            p + 1
        } else {
            p
        };
        if let Some(n) = name {
            lemma_headed(t, p, n, in_parens(items) + rest);
        }
        lemma_binding_parts(t, start, items, rest);
        read_bindings(t, start + 1, bindings);
        read_body(t, start + items.len() + 2, body);
        let q = start + 1 + items.len();
        let r = q + 1 + rest.len();
        lemma_binding_form(t, start, q, r, bindings, body, "expected ) to close let"@);
        assert(syntax::let_form(t, p)
            == Ok::<_, lexical::ErrorView>((e, p + parts_tokens(e).len() + 1)));
    }
}

proof fn read_let_variant(t: Seq<SpannedView>, p: int, e: ExprView)
    requires
        e is LetStar || e is LetRec || e is LetRecStar,
        writable_expr(e),
        stands(t, p, parts_tokens(e)),
        syntax::tok(t, p + parts_tokens(e).len()) is RightParen,
    ensures
        syntax::special_form(t, p, form_of(e)->0) == Ok::<_, lexical::ErrorView>(
            (e, p + parts_tokens(e).len() + 1),
        ),
    decreases e, 0nat,
{
    match e {
        ExprView::LetStar { bindings, body }
        | ExprView::LetRec { bindings, body }
        | ExprView::LetRecStar { bindings, body } => {
            let items = bindings_tokens(bindings);
            let rest = body_tokens(body);
            lemma_binding_parts(t, p, items, rest);
            read_bindings(t, p + 1, bindings);
            read_body(t, p + items.len() + 2, body);
            let q = p + 1 + items.len();
            let r = q + 1 + rest.len();
            lemma_binding_form(t, p, q, r, bindings, body, "expected ) to close let*"@);
            lemma_binding_form(t, p, q, r, bindings, body, "expected ) to close letrec"@);
            lemma_binding_form(t, p, q, r, bindings, body, "expected ) to close letrec*"@);
        },
        _ => {},
    }
}

proof fn read_let_values(t: Seq<SpannedView>, p: int, e: ExprView)
    requires
        e is LetValues || e is LetStarValues,
        writable_expr(e),
        stands(t, p, parts_tokens(e)),
        syntax::tok(t, p + parts_tokens(e).len()) is RightParen,
    ensures
        syntax::special_form(t, p, form_of(e)->0) == Ok::<_, lexical::ErrorView>(
            (e, p + parts_tokens(e).len() + 1),
        ),
    decreases e, 0nat,
{
    match e {
        ExprView::LetValues { bindings, body } | ExprView::LetStarValues { bindings, body } => {
            let items = mv_bindings_tokens(bindings);
            let rest = body_tokens(body);
            lemma_binding_parts(t, p, items, rest);
            read_mv_bindings(t, p + 1, bindings);
            read_body(t, p + items.len() + 2, body);
            let q = p + 1 + items.len();
            let r = q + 1 + rest.len();
            lemma_mv_binding_form(t, p, q, r, bindings, body);
        },
        _ => {},
    }
}

proof fn lemma_formals_first(f: FormalsView)
    ensures
        formals_tokens(f).len() > 0,
{
}

/// A list in parentheses and a body, each at its place.
proof fn lemma_binding_parts(
    t: Seq<SpannedView>,
    p: int,
    items: Seq<TokenView>,
    body: Seq<TokenView>,
)
    requires
        stands(t, p, in_parens(items) + body),
    ensures
        syntax::tok(t, p) is LeftParen,
        stands(t, p + 1, items),
        syntax::tok(t, p + 1 + items.len()) is RightParen,
        stands(t, p + items.len() + 2, body),
        (in_parens(items) + body).len() == items.len() + 2 + body.len(),
{
    lemma_stands(t, p, in_parens(items), body);
    lemma_in_parens(t, p, items);
}

proof fn lemma_binding_form(
    t: Seq<SpannedView>,
    p: int,
    q: int,
    r: int,
    bindings: Seq<BindingView>,
    body: BodyView,
    message: Seq<char>,
)
    requires
        p < q,
        syntax::tok(t, p) is LeftParen,
        syntax::binding_items(t, p + 1) == Ok::<_, lexical::ErrorView>((bindings, q)),
        syntax::tok(t, q) is RightParen,
        syntax::body(t, q + 1) == Ok::<_, lexical::ErrorView>((body, r)),
        syntax::tok(t, r) is RightParen,
    ensures
        syntax::binding_form(t, p, message)
            == Ok::<_, lexical::ErrorView>(((bindings, body), r + 1)),
{
    assert(syntax::bindings(t, p) == Ok::<_, lexical::ErrorView>((bindings, q + 1)));
}

proof fn lemma_mv_binding_form(
    t: Seq<SpannedView>,
    p: int,
    q: int,
    r: int,
    bindings: Seq<MvBindingView>,
    body: BodyView,
)
    requires
        p < q,
        syntax::tok(t, p) is LeftParen,
        syntax::mv_binding_items(t, p + 1) == Ok::<_, lexical::ErrorView>((bindings, q)),
        syntax::tok(t, q) is RightParen,
        syntax::body(t, q + 1) == Ok::<_, lexical::ErrorView>((body, r)),
        syntax::tok(t, r) is RightParen,
    ensures
        syntax::mv_binding_form(t, p) == Ok::<_, lexical::ErrorView>(((bindings, body), r + 1)),
{
    assert(syntax::mv_bindings(t, p) == Ok::<_, lexical::ErrorView>((bindings, q + 1)));
}

proof fn read_exprs(t: Seq<SpannedView>, p: int, v: Seq<ExprView>)
    requires
        writable_exprs(v),
        stands(t, p, exprs_tokens(v)),
        syntax::at_close(t, p + exprs_tokens(v).len()),
    ensures
        syntax::exprs(t, p) == Ok::<_, lexical::ErrorView>((v, p + exprs_tokens(v).len())),
    decreases v, 0nat,
{
    if v.len() == 0 {
        assert(v =~= Seq::empty());
    } else {
        let others = v.subrange(1, v.len() as int);
        let first = expr_tokens(v[0]);
        assert(writable_expr(v[0]));
        lemma_stands(t, p, first, exprs_tokens(others));
        lemma_expr_first(v[0]);
        lemma_first(t, p, first);
        read_expr(t, p, v[0]);
        assert forall|i: int| 0 <= i < others.len() implies writable_expr(
            #[trigger] others[i],
        ) by {
            assert(others[i] == v[i + 1]);
        }
        read_exprs(t, p + first.len(), others);
        assert(v =~= seq![v[0]] + others);
    }
}

proof fn read_body_exprs(t: Seq<SpannedView>, p: int, v: Seq<ExprView>)
    requires
        writable_exprs(v),
        stands(t, p, exprs_tokens(v)),
        syntax::at_close(t, p + exprs_tokens(v).len()),
    ensures
        syntax::body_exprs(t, p) == Ok::<_, lexical::ErrorView>((v, p + exprs_tokens(v).len())),
    decreases v, 0nat,
{
    if v.len() == 0 {
        assert(v =~= Seq::empty());
    } else {
        let others = v.subrange(1, v.len() as int);
        let first = expr_tokens(v[0]);
        assert(writable_expr(v[0]));
        lemma_stands(t, p, first, exprs_tokens(others));
        lemma_expr_first(v[0]);
        lemma_first(t, p, first);
        read_expr(t, p, v[0]);
        assert forall|i: int| 0 <= i < others.len() implies writable_expr(
            #[trigger] others[i],
        ) by {
            assert(others[i] == v[i + 1]);
        }
        read_body_exprs(t, p + first.len(), others);
        assert(v =~= seq![v[0]] + others);
    }
}

proof fn read_bindings(t: Seq<SpannedView>, p: int, v: Seq<BindingView>)
    requires
        writable_bindings(v),
        stands(t, p, bindings_tokens(v)),
        syntax::at_close(t, p + bindings_tokens(v).len()),
    ensures
        syntax::binding_items(t, p)
            == Ok::<_, lexical::ErrorView>((v, p + bindings_tokens(v).len())),
    decreases v, 0nat,
{
    if v.len() == 0 {
        assert(v =~= Seq::empty());
    } else {
        let others = v.subrange(1, v.len() as int);
        let first = binding_tokens(v[0]);
        assert(writable_binding(v[0]));
        lemma_stands(t, p, first, bindings_tokens(others));
        lemma_first(t, p, first);
        read_binding(t, p, v[0]);
        assert forall|i: int| 0 <= i < others.len() implies writable_binding(
            #[trigger] others[i],
        ) by {
            assert(others[i] == v[i + 1]);
        }
        read_bindings(t, p + first.len(), others);
        assert(v =~= seq![v[0]] + others);
    }
}

proof fn read_mv_bindings(t: Seq<SpannedView>, p: int, v: Seq<MvBindingView>)
    requires
        writable_mv_bindings(v),
        stands(t, p, mv_bindings_tokens(v)),
        syntax::at_close(t, p + mv_bindings_tokens(v).len()),
    ensures
        syntax::mv_binding_items(t, p)
            == Ok::<_, lexical::ErrorView>((v, p + mv_bindings_tokens(v).len())),
    decreases v, 0nat,
{
    if v.len() == 0 {
        assert(v =~= Seq::empty());
    } else {
        let others = v.subrange(1, v.len() as int);
        let first = mv_binding_tokens(v[0]);
        assert(writable_mv_binding(v[0]));
        lemma_stands(t, p, first, mv_bindings_tokens(others));
        lemma_first(t, p, first);
        read_mv_binding(t, p, v[0]);
        assert forall|i: int| 0 <= i < others.len() implies writable_mv_binding(
            #[trigger] others[i],
        ) by {
            assert(others[i] == v[i + 1]);
        }
        read_mv_bindings(t, p + first.len(), others);
        assert(v =~= seq![v[0]] + others);
    }
}

proof fn read_cond_clauses(t: Seq<SpannedView>, p: int, v: Seq<CondClauseView>)
    requires
        writable_cond_clauses(v),
        stands(t, p, cond_clauses_tokens(v)),
        syntax::at_close(t, p + cond_clauses_tokens(v).len()),
    ensures
        syntax::cond_clauses(t, p)
            == Ok::<_, lexical::ErrorView>((v, p + cond_clauses_tokens(v).len())),
    decreases v, 0nat,
{
    if v.len() == 0 {
        assert(v =~= Seq::empty());
    } else {
        let others = v.subrange(1, v.len() as int);
        let first = cond_clause_tokens(v[0]);
        assert(writable_cond_clause(v[0]));
        lemma_stands(t, p, first, cond_clauses_tokens(others));
        lemma_first(t, p, first);
        read_cond_clause(t, p, v[0]);
        assert forall|i: int| 0 <= i < others.len() implies writable_cond_clause(
            #[trigger] others[i],
        ) by {
            assert(others[i] == v[i + 1]);
        }
        read_cond_clauses(t, p + first.len(), others);
        assert(v =~= seq![v[0]] + others);
    }
}

proof fn read_case_clauses(t: Seq<SpannedView>, p: int, v: Seq<CaseClauseView>)
    requires
        writable_case_clauses(v),
        stands(t, p, case_clauses_tokens(v)),
        syntax::at_close(t, p + case_clauses_tokens(v).len()),
    ensures
        syntax::case_clauses(t, p)
            == Ok::<_, lexical::ErrorView>((v, p + case_clauses_tokens(v).len())),
    decreases v, 0nat,
{
    if v.len() == 0 {
        assert(v =~= Seq::empty());
    } else {
        let others = v.subrange(1, v.len() as int);
        let first = case_clause_tokens(v[0]);
        assert(writable_case_clause(v[0]));
        lemma_stands(t, p, first, case_clauses_tokens(others));
        lemma_first(t, p, first);
        read_case_clause(t, p, v[0]);
        assert forall|i: int| 0 <= i < others.len() implies writable_case_clause(
            #[trigger] others[i],
        ) by {
            assert(others[i] == v[i + 1]);
        }
        read_case_clauses(t, p + first.len(), others);
        assert(v =~= seq![v[0]] + others);
    }
}

proof fn read_binding(t: Seq<SpannedView>, p: int, v: BindingView)
    requires
        writable_binding(v),
        stands(t, p, binding_tokens(v)),
    ensures
        syntax::binding(t, p) == Ok::<_, lexical::ErrorView>((v, p + binding_tokens(v).len())),
    decreases v, 0nat,
{
    let init = expr_tokens(*v.init);
    lemma_in_parens(t, p, headed(v.name, init));
    lemma_headed(t, p + 1, v.name, init);
    read_expr(t, p + 2, *v.init);
}

#[verifier::rlimit(40)]
proof fn read_mv_binding(t: Seq<SpannedView>, p: int, v: MvBindingView)
    requires
        writable_mv_binding(v),
        stands(t, p, mv_binding_tokens(v)),
    ensures
        syntax::mv_binding(t, p)
            == Ok::<_, lexical::ErrorView>((v, p + mv_binding_tokens(v).len())),
    decreases v, 0nat,
{
    let formals = formals_tokens(v.formals);
    let init = expr_tokens(*v.init);
    lemma_in_parens(t, p, formals + init);
    lemma_stands(t, p + 1, formals, init);
    lemma_formals_first(v.formals);
    read_formals(t, p + 1, v.formals);
    read_expr(t, p + 1 + formals.len(), *v.init);
}

proof fn read_cond_clause(t: Seq<SpannedView>, p: int, v: CondClauseView)
    requires
        writable_cond_clause(v),
        stands(t, p, cond_clause_tokens(v)),
    ensures
        syntax::cond_clause(t, p)
            == Ok::<_, lexical::ErrorView>((v, p + cond_clause_tokens(v).len())),
    decreases v, 1nat,
{
    match v {
        CondClauseView::Clause { .. } => read_plain_clause(t, p, v),
        CondClauseView::Arrow { .. } => read_arrow_clause(t, p, v),
        CondClauseView::Else { .. } => read_cond_else(t, p, v),
    }
}

proof fn read_cond_else(t: Seq<SpannedView>, p: int, v: CondClauseView)
    requires
        v is Else,
        writable_cond_clause(v),
        stands(t, p, cond_clause_tokens(v)),
    ensures
        syntax::cond_clause(t, p)
            == Ok::<_, lexical::ErrorView>((v, p + cond_clause_tokens(v).len())),
    decreases v, 0nat,
{
    if let CondClauseView::Else { body } = v {
        let rest = exprs_tokens(body);
        lemma_in_parens(t, p, headed("else"@, rest));
        lemma_headed(t, p + 1, "else"@, rest);
        read_exprs(t, p + 2, body);
    }
}

#[verifier::rlimit(40)]
proof fn read_plain_clause(t: Seq<SpannedView>, p: int, v: CondClauseView)
    requires
        v is Clause,
        writable_cond_clause(v),
        stands(t, p, cond_clause_tokens(v)),
    ensures
        syntax::cond_clause(t, p)
            == Ok::<_, lexical::ErrorView>((v, p + cond_clause_tokens(v).len())),
    decreases v, 0nat,
{
    if let CondClauseView::Clause { test, body } = v {
        let first = expr_tokens(*test);
        let rest = exprs_tokens(body);
        lemma_in_parens(t, p, first + rest);
        lemma_stands(t, p + 1, first, rest);
        lemma_expr_first(*test);
        lemma_first(t, p + 1, first);
        read_expr(t, p + 1, *test);
        if body.len() > 0 {
            assert(writable_expr(body[0]));
            lemma_expr_first(body[0]);
            lemma_first(t, p + 1 + first.len(), rest);
        }
        read_exprs(t, p + 1 + first.len(), body);
    }
}

#[verifier::rlimit(40)]
proof fn read_arrow_clause(t: Seq<SpannedView>, p: int, v: CondClauseView)
    requires
        v is Arrow,
        writable_cond_clause(v),
        stands(t, p, cond_clause_tokens(v)),
    ensures
        syntax::cond_clause(t, p)
            == Ok::<_, lexical::ErrorView>((v, p + cond_clause_tokens(v).len())),
    decreases v, 0nat,
{
    if let CondClauseView::Arrow { test, recipient } = v {
        let first = expr_tokens(*test);
        let rest = expr_tokens(*recipient);
        lemma_in_parens(t, p, first + headed("=>"@, rest));
        lemma_stands(t, p + 1, first, headed("=>"@, rest));
        lemma_expr_first(*test);
        lemma_first(t, p + 1, first);
        lemma_headed(t, p + 1 + first.len(), "=>"@, rest);
        read_expr(t, p + 1, *test);
        read_expr(t, p + 2 + first.len(), *recipient);
    }
}

proof fn read_case_clause(t: Seq<SpannedView>, p: int, v: CaseClauseView)
    requires
        writable_case_clause(v),
        stands(t, p, case_clause_tokens(v)),
    ensures
        syntax::case_clause(t, p)
            == Ok::<_, lexical::ErrorView>((v, p + case_clause_tokens(v).len())),
    decreases v, 1nat,
{
    match v {
        CaseClauseView::Matches { .. } => read_matches_clause(t, p, v),
        CaseClauseView::Else { .. } => read_case_else(t, p, v),
    }
}

proof fn read_case_else(t: Seq<SpannedView>, p: int, v: CaseClauseView)
    requires
        v is Else,
        writable_case_clause(v),
        stands(t, p, case_clause_tokens(v)),
    ensures
        syntax::case_clause(t, p)
            == Ok::<_, lexical::ErrorView>((v, p + case_clause_tokens(v).len())),
    decreases v, 0nat,
{
    if let CaseClauseView::Else { body } = v {
        let rest = exprs_tokens(body);
        lemma_in_parens(t, p, headed("else"@, rest));
        lemma_headed(t, p + 1, "else"@, rest);
        read_exprs(t, p + 2, body);
    }
}

#[verifier::rlimit(40)]
proof fn read_matches_clause(t: Seq<SpannedView>, p: int, v: CaseClauseView)
    requires
        v is Matches,
        writable_case_clause(v),
        stands(t, p, case_clause_tokens(v)),
    ensures
        syntax::case_clause(t, p)
            == Ok::<_, lexical::ErrorView>((v, p + case_clause_tokens(v).len())),
    decreases v, 0nat,
{
    if let CaseClauseView::Matches { data, body } = v {
        let first = in_parens(data_tokens(data));
        let rest = exprs_tokens(body);
        lemma_in_parens(t, p, first + rest);
        lemma_stands(t, p + 1, first, rest);
        lemma_in_parens(t, p + 1, data_tokens(data));
        read_data(t, p + 2, data);
        let q = p + 2 + data_tokens(data).len();
        assert(syntax::data(t, p + 2) == Ok::<_, lexical::ErrorView>((data, q)));
        assert(syntax::tok(t, q) is RightParen);
        assert(q + 1 == p + 1 + first.len());
        read_exprs(t, q + 1, body);
        assert(!syntax::is_symbol(t, p + 1, "else"@));
    }
}

proof fn read_body(t: Seq<SpannedView>, p: int, b: BodyView)
    requires
        writable_body(b),
        stands(t, p, body_tokens(b)),
        syntax::at_close(t, p + body_tokens(b).len()),
    ensures
        syntax::body(t, p) == Ok::<_, lexical::ErrorView>((b, p + body_tokens(b).len())),
    decreases b, 0nat,
{
    let first = definitions_tokens(b.definitions);
    let rest = exprs_tokens(b.expressions);
    lemma_stands(t, p, first, rest);
    let e = b.expressions[0];
    assert(writable_expr(e));
    lemma_expr_first(e);
    let q = p + first.len();
    lemma_stands(
        t,
        q,
        expr_tokens(e),
        exprs_tokens(b.expressions.subrange(1, b.expressions.len() as int)),
    );
    lemma_first(t, q, expr_tokens(e));
    lemma_expr_second(t, q, e);
    read_definitions(t, p, b.definitions);
    read_body_exprs(t, q, b.expressions);
}

proof fn read_definitions(t: Seq<SpannedView>, p: int, v: Seq<DefinitionView>)
    requires
        writable_definitions(v),
        stands(t, p, definitions_tokens(v)),
        !(syntax::tok(t, p + definitions_tokens(v).len()) is DatumComment),
        !syntax::at_definition(t, p + definitions_tokens(v).len()),
    ensures
        syntax::definitions(t, p)
            == Ok::<_, lexical::ErrorView>((v, p + definitions_tokens(v).len())),
    decreases v, 0nat,
{
    if v.len() == 0 {
        assert(v =~= Seq::empty());
    } else {
        let others = v.subrange(1, v.len() as int);
        let first = definition_tokens(v[0]);
        assert(writable_definition(v[0]));
        lemma_stands(t, p, first, definitions_tokens(others));
        read_definition(t, p, v[0]);
        assert forall|i: int| 0 <= i < others.len() implies writable_definition(
            #[trigger] others[i],
        ) by {
            assert(others[i] == v[i + 1]);
        }
        read_definitions(t, p + first.len(), others);
        assert(v =~= seq![v[0]] + others);
    }
}

/// A parenthesized definition is recognized, and read.
proof fn read_definition(t: Seq<SpannedView>, p: int, d: DefinitionView)
    requires
        writable_definition(d),
        stands(t, p, definition_tokens(d)),
    ensures
        syntax::at_definition(t, p),
        definition_tokens(d).len() > 0,
        syntax::closed(t, syntax::definition(t, p + 1), "expected ) to close definition"@)
            == Ok::<_, lexical::ErrorView>((d, p + definition_tokens(d).len())),
    decreases d, 1nat,
{
    match d {
        DefinitionView::Variable { .. } => read_variable(t, p, d),
        DefinitionView::Function { .. } => read_function(t, p, d),
        DefinitionView::Syntax { .. } => read_syntax(t, p, d),
    }
}

proof fn read_variable(t: Seq<SpannedView>, p: int, d: DefinitionView)
    requires
        d is Variable,
        writable_definition(d),
        stands(t, p, definition_tokens(d)),
    ensures
        syntax::at_definition(t, p),
        definition_tokens(d).len() > 0,
        syntax::closed(t, syntax::definition(t, p + 1), "expected ) to close definition"@)
            == Ok::<_, lexical::ErrorView>((d, p + definition_tokens(d).len())),
    decreases d, 0nat,
{
    reveal_strlit("define");
    reveal_strlit("define-syntax");
    assert("define"@.len() != "define-syntax"@.len());
    if let DefinitionView::Variable { name, init } = d {
        let rest = match init {
            Some(e) => expr_tokens(*e),
            None => Seq::empty(),
        };
        lemma_in_parens(t, p, headed("define"@, headed(name, rest)));
        lemma_headed(t, p + 1, "define"@, headed(name, rest));
        lemma_headed(t, p + 2, name, rest);
        if let Some(e) = init {
            lemma_expr_first(*e);
            lemma_first(t, p + 3, rest);
            read_expr(t, p + 3, *e);
        }
        assert(syntax::define_rest(t, p + 2)
            == Ok::<_, lexical::ErrorView>((d, p + 3 + rest.len())));
    }
}

proof fn read_function(t: Seq<SpannedView>, p: int, d: DefinitionView)
    requires
        d is Function,
        writable_definition(d),
        stands(t, p, definition_tokens(d)),
    ensures
        syntax::at_definition(t, p),
        definition_tokens(d).len() > 0,
        syntax::closed(t, syntax::definition(t, p + 1), "expected ) to close definition"@)
            == Ok::<_, lexical::ErrorView>((d, p + definition_tokens(d).len())),
    decreases d, 0nat,
{
    reveal_strlit("define");
    reveal_strlit("define-syntax");
    assert("define"@.len() != "define-syntax"@.len());
    if let DefinitionView::Function { name, formals, body } = d {
        let signature = headed(name, formals_rest_tokens(formals));
        let rest = body_tokens(body);
        lemma_in_parens(t, p, headed("define"@, in_parens(signature) + rest));
        lemma_headed(t, p + 1, "define"@, in_parens(signature) + rest);
        lemma_binding_parts(t, p + 2, signature, rest);
        lemma_headed(t, p + 3, name, formals_rest_tokens(formals));
        read_formals_rest(t, p + 4, formals);
        read_body(t, p + 4 + signature.len(), body);
        assert(syntax::define_rest(t, p + 2) == Ok::<_, lexical::ErrorView>(
            (d, p + 4 + signature.len() + rest.len()),
        ));
    }
}

proof fn read_syntax(t: Seq<SpannedView>, p: int, d: DefinitionView)
    requires
        d is Syntax,
        writable_definition(d),
        stands(t, p, definition_tokens(d)),
    ensures
        syntax::at_definition(t, p),
        definition_tokens(d).len() > 0,
        syntax::closed(t, syntax::definition(t, p + 1), "expected ) to close definition"@)
            == Ok::<_, lexical::ErrorView>((d, p + definition_tokens(d).len())),
    decreases d, 0nat,
{
    reveal_strlit("define");
    reveal_strlit("define-syntax");
    assert("define"@.len() != "define-syntax"@.len());
    if let DefinitionView::Syntax { keyword, init } = d {
        let rest = expr_tokens(*init);
        lemma_in_parens(t, p, headed("define-syntax"@, headed(keyword, rest)));
        lemma_headed(t, p + 1, "define-syntax"@, headed(keyword, rest));
        lemma_headed(t, p + 2, keyword, rest);
        read_expr(t, p + 3, *init);
    }
}

proof fn read_form(t: Seq<SpannedView>, p: int, f: TopLevelFormView)
    requires
        writable_form(f),
        stands(t, p, top_form_tokens(f)),
    ensures
        syntax::top_form(t, p) == Ok::<_, lexical::ErrorView>((f, p + top_form_tokens(f).len())),
        top_form_tokens(f).len() > 0,
        !syntax::at_close(t, p),
    decreases f, 0nat,
{
    match f {
        TopLevelFormView::Definition(d) => read_definition(t, p, d),
        TopLevelFormView::Expr(e) => {
            lemma_expr_first(e);
            lemma_first(t, p, expr_tokens(e));
            lemma_expr_second(t, p, e);
            read_expr(t, p, e);
        },
        TopLevelFormView::Begin(forms) => {
            lemma_in_parens(t, p, headed("begin"@, forms_tokens(forms)));
            lemma_headed(t, p + 1, "begin"@, forms_tokens(forms));
            reveal_strlit("begin");
            reveal_strlit("define");
            reveal_strlit("define-syntax");
            assert("begin"@.len() == 5 && "define"@.len() == 6 && "define-syntax"@.len() == 13);
            read_forms(t, p + 2, forms);
        },
    }
}

proof fn read_forms(t: Seq<SpannedView>, p: int, v: Seq<TopLevelFormView>)
    requires
        writable_forms(v),
        stands(t, p, forms_tokens(v)),
        syntax::at_close(t, p + forms_tokens(v).len()),
    ensures
        syntax::top_forms(t, p) == Ok::<_, lexical::ErrorView>((v, p + forms_tokens(v).len())),
    decreases v, 0nat,
{
    if v.len() == 0 {
        assert(v =~= Seq::empty());
    } else {
        let others = v.subrange(1, v.len() as int);
        let first = top_form_tokens(v[0]);
        assert(writable_form(v[0]));
        lemma_stands(t, p, first, forms_tokens(others));
        read_form(t, p, v[0]);
        assert forall|i: int| 0 <= i < others.len() implies writable_form(
            #[trigger] others[i],
        ) by {
            assert(others[i] == v[i + 1]);
        }
        read_forms(t, p + first.len(), others);
        assert(v =~= seq![v[0]] + others);
    }
}

proof fn read_program(t: Seq<SpannedView>, p: int, v: Seq<TopLevelFormView>)
    requires
        writable_forms(v),
        stands(t, p, forms_tokens(v)),
        syntax::tok(t, p + forms_tokens(v).len()) is Eof,
    ensures
        syntax::program_from(t, p) == Ok::<_, lexical::ErrorView>((v, p + forms_tokens(v).len())),
    decreases v.len(),
{
    if v.len() == 0 {
        assert(v =~= Seq::empty());
    } else {
        let others = v.subrange(1, v.len() as int);
        let first = top_form_tokens(v[0]);
        assert(writable_form(v[0]));
        lemma_stands(t, p, first, forms_tokens(others));
        read_form(t, p, v[0]);
        assert forall|i: int| 0 <= i < others.len() implies writable_form(
            #[trigger] others[i],
        ) by {
            assert(others[i] == v[i + 1]);
        }
        read_program(t, p + first.len(), others);
        assert(v =~= seq![v[0]] + others);
    }
}

// ---- Written trees hold no datum comment ----

/// Whether tokens hold no datum comment.
#[verifier::opaque]
pub open spec fn plain(w: Seq<TokenView>) -> bool {
    forall|k: int| 0 <= k < w.len() ==> !(#[trigger] w[k] is DatumComment)
}

proof fn lemma_plain_token(token: TokenView)
    requires
        !(token is DatumComment),
    ensures
        plain(seq![token]),
{
    reveal(plain);
}

proof fn lemma_plain_none()
    ensures
        plain(Seq::empty()),
{
    reveal(plain);
}

proof fn lemma_plain(a: Seq<TokenView>, b: Seq<TokenView>)
    requires
        plain(a),
        plain(b),
    ensures
        plain(a + b),
{
    reveal(plain);
}

proof fn lemma_plain_in_parens(w: Seq<TokenView>)
    requires
        plain(w),
    ensures
        plain(in_parens(w)),
{
    reveal(plain);
}

proof fn lemma_plain_headed(name: Seq<char>, w: Seq<TokenView>)
    requires
        plain(w),
    ensures
        plain(headed(name, w)),
{
    reveal(plain);
}

proof fn lemma_plain_formals(f: FormalsView)
    ensures
        plain(formals_rest_tokens(f)),
        plain(formals_tokens(f)),
{
    reveal(plain);
}

/// A written datum holds no datum comment.
pub proof fn plain_datum(d: DatumView)
    ensures
        plain(datum_tokens(d)),
    decreases d, 0nat,
{
    lemma_plain_none();
    match d {
        DatumView::Null => lemma_plain_in_parens(Seq::empty()),
        DatumView::Pair(car, cdr) => {
            plain_datum(*car);
            plain_tail(*cdr);
            lemma_plain(datum_tokens(*car), tail_tokens(*cdr));
            lemma_plain_in_parens(datum_tokens(*car) + tail_tokens(*cdr));
        },
        DatumView::Vector(items) => {
            plain_data(items);
            reveal(plain);
        },
        _ => reveal(plain),
    }
}

proof fn plain_tail(d: DatumView)
    ensures
        plain(tail_tokens(d)),
    decreases d, 1nat,
{
    lemma_plain_none();
    match d {
        DatumView::Null => {},
        DatumView::Pair(car, cdr) => {
            plain_datum(*car);
            plain_tail(*cdr);
            lemma_plain(datum_tokens(*car), tail_tokens(*cdr));
        },
        _ => {
            plain_datum(d);
            lemma_plain_token(TokenView::Dot);
            lemma_plain(seq![TokenView::Dot], datum_tokens(d));
        },
    }
}

proof fn plain_data(v: Seq<DatumView>)
    ensures
        plain(data_tokens(v)),
    decreases v, 0nat,
{
    lemma_plain_none();
    if v.len() > 0 {
        let others = v.subrange(1, v.len() as int);
        plain_datum(v[0]);
        plain_data(others);
        lemma_plain(datum_tokens(v[0]), data_tokens(others));
    }
}

proof fn plain_expr(e: ExprView)
    ensures
        plain(expr_tokens(e)),
    decreases e, 1nat,
{
    plain_parts(e);
    if let Some(form) = form_of(e) {
        lemma_plain_headed(keyword(form), parts_tokens(e));
        lemma_plain_in_parens(headed(keyword(form), parts_tokens(e)));
    }
}

proof fn plain_parts(e: ExprView)
    ensures
        plain(parts_tokens(e)),
    decreases e, 0nat,
{
    lemma_plain_none();
    match e {
        ExprView::Literal(d) => plain_datum(d),
        ExprView::Var(name) => lemma_plain_token(TokenView::Symbol(name)),
        ExprView::Quote(d) => plain_datum(d),
        ExprView::Lambda { formals, body } => {
            lemma_plain_formals(formals);
            plain_body(body);
            lemma_plain(formals_tokens(formals), body_tokens(body));
        },
        ExprView::If { test, consequent, alternate } => {
            plain_expr(*test);
            plain_expr(*consequent);
            let third = match alternate {
                Some(a) => expr_tokens(*a),
                None => Seq::empty(),
            };
            if let Some(a) = alternate {
                plain_expr(*a);
            }
            lemma_plain(expr_tokens(*consequent), third);
            lemma_plain(expr_tokens(*test), expr_tokens(*consequent) + third);
        },
        ExprView::SetBang { var, value } => {
            plain_expr(*value);
            lemma_plain_headed(var, expr_tokens(*value));
        },
        ExprView::Cond(clauses) => plain_cond_clauses(clauses),
        ExprView::Case { key, clauses } => {
            plain_expr(*key);
            plain_case_clauses(clauses);
            lemma_plain(expr_tokens(*key), case_clauses_tokens(clauses));
        },
        ExprView::When { test, body } | ExprView::Unless { test, body } => {
            plain_expr(*test);
            plain_exprs(body);
            lemma_plain(expr_tokens(*test), exprs_tokens(body));
        },
        ExprView::And(es) | ExprView::Or(es) | ExprView::Begin(es) => plain_exprs(es),
        ExprView::Let { name, bindings, body } => {
            plain_bindings(bindings);
            plain_body(body);
            lemma_plain_in_parens(bindings_tokens(bindings));
            lemma_plain(in_parens(bindings_tokens(bindings)), body_tokens(body));
            if let Some(n) = name {
                lemma_plain_headed(
                    n,
                    in_parens(bindings_tokens(bindings)) + body_tokens(body),
                );
            }
        },
        ExprView::LetStar { bindings, body }
        | ExprView::LetRec { bindings, body }
        | ExprView::LetRecStar { bindings, body } => {
            plain_bindings(bindings);
            plain_body(body);
            lemma_plain_in_parens(bindings_tokens(bindings));
            lemma_plain(in_parens(bindings_tokens(bindings)), body_tokens(body));
        },
        ExprView::LetValues { bindings, body } | ExprView::LetStarValues { bindings, body } => {
            plain_mv_bindings(bindings);
            plain_body(body);
            lemma_plain_in_parens(mv_bindings_tokens(bindings));
            lemma_plain(in_parens(mv_bindings_tokens(bindings)), body_tokens(body));
        },
        ExprView::Application { operator, operands } => {
            plain_expr(*operator);
            plain_exprs(operands);
            lemma_plain(expr_tokens(*operator), exprs_tokens(operands));
            lemma_plain_in_parens(expr_tokens(*operator) + exprs_tokens(operands));
        },
    }
}

proof fn plain_exprs(v: Seq<ExprView>)
    ensures
        plain(exprs_tokens(v)),
    decreases v, 0nat,
{
    lemma_plain_none();
    if v.len() > 0 {
        let others = v.subrange(1, v.len() as int);
        plain_expr(v[0]);
        plain_exprs(others);
        lemma_plain(expr_tokens(v[0]), exprs_tokens(others));
    }
}

proof fn plain_body(b: BodyView)
    ensures
        plain(body_tokens(b)),
    decreases b, 0nat,
{
    plain_definitions(b.definitions);
    plain_exprs(b.expressions);
    lemma_plain(definitions_tokens(b.definitions), exprs_tokens(b.expressions));
}

proof fn plain_definition(d: DefinitionView)
    ensures
        plain(definition_tokens(d)),
    decreases d, 0nat,
{
    lemma_plain_none();
    match d {
        DefinitionView::Variable { name, init } => {
            let rest = match init {
                Some(e) => expr_tokens(*e),
                None => Seq::empty(),
            };
            if let Some(e) = init {
                plain_expr(*e);
            }
            lemma_plain_headed(name, rest);
            lemma_plain_headed("define"@, headed(name, rest));
            lemma_plain_in_parens(headed("define"@, headed(name, rest)));
        },
        DefinitionView::Function { name, formals, body } => {
            let signature = headed(name, formals_rest_tokens(formals));
            lemma_plain_formals(formals);
            lemma_plain_headed(name, formals_rest_tokens(formals));
            lemma_plain_in_parens(signature);
            plain_body(body);
            lemma_plain(in_parens(signature), body_tokens(body));
            lemma_plain_headed("define"@, in_parens(signature) + body_tokens(body));
            lemma_plain_in_parens(headed("define"@, in_parens(signature) + body_tokens(body)));
        },
        DefinitionView::Syntax { keyword, init } => {
            let rest = expr_tokens(*init);
            plain_expr(*init);
            lemma_plain_headed(keyword, rest);
            lemma_plain_headed("define-syntax"@, headed(keyword, rest));
            lemma_plain_in_parens(headed("define-syntax"@, headed(keyword, rest)));
        },
    }
}

proof fn plain_definitions(v: Seq<DefinitionView>)
    ensures
        plain(definitions_tokens(v)),
    decreases v, 0nat,
{
    lemma_plain_none();
    if v.len() > 0 {
        let others = v.subrange(1, v.len() as int);
        plain_definition(v[0]);
        plain_definitions(others);
        lemma_plain(definition_tokens(v[0]), definitions_tokens(others));
    }
}

proof fn plain_binding(b: BindingView)
    ensures
        plain(binding_tokens(b)),
    decreases b, 0nat,
{
    plain_expr(*b.init);
    lemma_plain_headed(b.name, expr_tokens(*b.init));
    lemma_plain_in_parens(headed(b.name, expr_tokens(*b.init)));
}

proof fn plain_bindings(v: Seq<BindingView>)
    ensures
        plain(bindings_tokens(v)),
    decreases v, 0nat,
{
    lemma_plain_none();
    if v.len() > 0 {
        let others = v.subrange(1, v.len() as int);
        plain_binding(v[0]);
        plain_bindings(others);
        lemma_plain(binding_tokens(v[0]), bindings_tokens(others));
    }
}

proof fn plain_mv_binding(b: MvBindingView)
    ensures
        plain(mv_binding_tokens(b)),
    decreases b, 0nat,
{
    plain_expr(*b.init);
    lemma_plain_formals(b.formals);
    lemma_plain(formals_tokens(b.formals), expr_tokens(*b.init));
    lemma_plain_in_parens(formals_tokens(b.formals) + expr_tokens(*b.init));
}

proof fn plain_mv_bindings(v: Seq<MvBindingView>)
    ensures
        plain(mv_bindings_tokens(v)),
    decreases v, 0nat,
{
    lemma_plain_none();
    if v.len() > 0 {
        let others = v.subrange(1, v.len() as int);
        plain_mv_binding(v[0]);
        plain_mv_bindings(others);
        lemma_plain(mv_binding_tokens(v[0]), mv_bindings_tokens(others));
    }
}

proof fn plain_cond_clause(c: CondClauseView)
    ensures
        plain(cond_clause_tokens(c)),
    decreases c, 0nat,
{
    match c {
        CondClauseView::Clause { test, body } => {
            plain_expr(*test);
            plain_exprs(body);
            lemma_plain(expr_tokens(*test), exprs_tokens(body));
            lemma_plain_in_parens(expr_tokens(*test) + exprs_tokens(body));
        },
        CondClauseView::Arrow { test, recipient } => {
            let rest = headed("=>"@, expr_tokens(*recipient));
            plain_expr(*test);
            plain_expr(*recipient);
            lemma_plain_headed("=>"@, expr_tokens(*recipient));
            lemma_plain(expr_tokens(*test), rest);
            lemma_plain_in_parens(expr_tokens(*test) + rest);
        },
        CondClauseView::Else { body } => {
            plain_exprs(body);
            lemma_plain_headed("else"@, exprs_tokens(body));
            lemma_plain_in_parens(headed("else"@, exprs_tokens(body)));
        },
    }
}

proof fn plain_cond_clauses(v: Seq<CondClauseView>)
    ensures
        plain(cond_clauses_tokens(v)),
    decreases v, 0nat,
{
    lemma_plain_none();
    if v.len() > 0 {
        let others = v.subrange(1, v.len() as int);
        plain_cond_clause(v[0]);
        plain_cond_clauses(others);
        lemma_plain(cond_clause_tokens(v[0]), cond_clauses_tokens(others));
    }
}

proof fn plain_case_clause(c: CaseClauseView)
    ensures
        plain(case_clause_tokens(c)),
    decreases c, 0nat,
{
    match c {
        CaseClauseView::Matches { data, body } => {
            plain_data(data);
            plain_exprs(body);
            lemma_plain_in_parens(data_tokens(data));
            lemma_plain(in_parens(data_tokens(data)), exprs_tokens(body));
            lemma_plain_in_parens(in_parens(data_tokens(data)) + exprs_tokens(body));
        },
        CaseClauseView::Else { body } => {
            plain_exprs(body);
            lemma_plain_headed("else"@, exprs_tokens(body));
            lemma_plain_in_parens(headed("else"@, exprs_tokens(body)));
        },
    }
}

proof fn plain_case_clauses(v: Seq<CaseClauseView>)
    ensures
        plain(case_clauses_tokens(v)),
    decreases v, 0nat,
{
    lemma_plain_none();
    if v.len() > 0 {
        let others = v.subrange(1, v.len() as int);
        plain_case_clause(v[0]);
        plain_case_clauses(others);
        lemma_plain(case_clause_tokens(v[0]), case_clauses_tokens(others));
    }
}

proof fn plain_form(f: TopLevelFormView)
    ensures
        plain(top_form_tokens(f)),
    decreases f, 0nat,
{
    match f {
        TopLevelFormView::Definition(d) => plain_definition(d),
        TopLevelFormView::Expr(e) => plain_expr(e),
        TopLevelFormView::Begin(forms) => {
            plain_forms(forms);
            lemma_plain_headed("begin"@, forms_tokens(forms));
            lemma_plain_in_parens(headed("begin"@, forms_tokens(forms)));
        },
    }
}

proof fn plain_forms(v: Seq<TopLevelFormView>)
    ensures
        plain(forms_tokens(v)),
    decreases v, 0nat,
{
    lemma_plain_none();
    if v.len() > 0 {
        let others = v.subrange(1, v.len() as int);
        plain_form(v[0]);
        plain_forms(others);
        lemma_plain(top_form_tokens(v[0]), forms_tokens(others));
    }
}

// ---- Laws ----

/// Every datum, written as tokens, is read back.
pub proof fn law_data_are_read_back(t: Seq<SpannedView>, p: int, d: DatumView)
    requires
        stands(t, p, datum_tokens(d)),
    ensures
        syntax::datum(t, p) == Ok::<_, lexical::ErrorView>((d, p + datum_tokens(d).len())),
{
    read_datum(t, p, d);
}

/// Tokens that are those of `w` and the end of input stand in a token sequence.
proof fn lemma_whole(t: Seq<SpannedView>, w: Seq<TokenView>)
    requires
        surroundings::tokens_of(t) == w.push(TokenView::Eof),
    ensures
        stands(t, 0, w),
        syntax::tok(t, w.len() as int) is Eof,
        plain(w) ==> syntax::uncommented(t) == t,
{
    reveal(stands);
    assert(surroundings::tokens_of(t).len() == t.len());
    assert forall|k: int| 0 <= k < w.len() implies #[trigger] w[k] == t[0 + k].token by {
        assert(surroundings::tokens_of(t)[k] == w[k]);
    }
    assert(surroundings::tokens_of(t)[w.len() as int] is Eof);
    if plain(w) {
        reveal(plain);
        assert forall|k: int| 0 <= k < t.len() implies !((
        #[trigger] t[k]).token is DatumComment) by {
            assert(surroundings::tokens_of(t)[k] == t[k].token);
        }
        comments::lemma_settled_stays(t);
    }
}

/// A source whose tokens are those of an expression is that expression.
pub proof fn law_expressions_are_read_back(b: Seq<u8>, e: ExprView)
    requires
        writable_expr(e),
        surroundings::kinds(lexical::tokens(b)) == Ok::<_, Seq<char>>(
            expr_tokens(e).push(TokenView::Eof),
        ),
    ensures
        syntax::expression(b) == Ok::<_, lexical::ErrorView>(e),
{
    let t = lexical::tokens(b)->Ok_0;
    plain_expr(e);
    lemma_whole(t, expr_tokens(e));
    read_expr(t, 0, e);
}

/// A source whose tokens are those of top-level forms is the program of these.
pub proof fn law_programs_are_read_back(b: Seq<u8>, forms: Seq<TopLevelFormView>)
    requires
        writable_forms(forms),
        surroundings::kinds(lexical::tokens(b)) == Ok::<_, Seq<char>>(
            forms_tokens(forms).push(TokenView::Eof),
        ),
    ensures
        syntax::program(b) == Ok::<_, lexical::ErrorView>(forms),
{
    let t = lexical::tokens(b)->Ok_0;
    plain_forms(forms);
    lemma_whole(t, forms_tokens(forms));
    read_program(t, 0, forms);
}

/// A program that is written out as text is read back from the text.
pub proof fn law_written_programs_are_read_back(forms: Seq<TopLevelFormView>)
    requires
        writable_forms(forms),
        spelling::all_spelled(forms_tokens(forms)),
    ensures
        syntax::program(spelling::written(forms_tokens(forms)))
            == Ok::<_, lexical::ErrorView>(forms),
{
    spelling::law_written_tokens_are_read_back(forms_tokens(forms));
    law_programs_are_read_back(spelling::written(forms_tokens(forms)), forms);
}

/// An expression that is written out as text is read back from the text.
pub proof fn law_written_expressions_are_read_back(e: ExprView)
    requires
        writable_expr(e),
        spelling::all_spelled(expr_tokens(e)),
    ensures
        syntax::expression(spelling::written(expr_tokens(e))) == Ok::<_, lexical::ErrorView>(e),
{
    spelling::law_written_tokens_are_read_back(expr_tokens(e));
    law_expressions_are_read_back(spelling::written(expr_tokens(e)), e);
}

} // verus!
