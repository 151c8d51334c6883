//! What the models of trees, tokens and results hold: the model of a node is the
//! node of the same kind that holds the models of its parts, each in its place.

use crate::ast::{
    Binding, Body, CaseClause, CondClause, Datum, Definition, Expr, Formals, Ident, MvBinding,
    Number, Program, TopLevelForm,
};
use crate::lexer::{LexError, Span, SpannedToken, Token};
use crate::lexical;
use crate::lexical::{ErrorView, SpannedView, TokenView};
use crate::model;
use crate::model::{
    BindingView, BodyView, CaseClauseView, CondClauseView, DatumView, DefinitionView, ExprView,
    FormalsView, MvBindingView, NumberView, TopLevelFormView,
};
use crate::parser;
use crate::parser::ParseError;
use vstd::prelude::*;

verus! {

/// The model of a list holds the models of its items, in their order.
pub proof fn law_list_models(
    data: Seq<Datum>,
    exprs: Seq<Expr>,
    definitions: Seq<Definition>,
    bindings: Seq<Binding>,
    mv_bindings: Seq<MvBinding>,
    case_clauses: Seq<CaseClause>,
    cond_clauses: Seq<CondClause>,
    forms: Seq<TopLevelForm>,
    idents: Seq<Ident>,
    tokens: Seq<SpannedToken>,
)
    ensures
        model::data_view(data).len() == data.len(),
        forall|i: int|
            0 <= i < data.len() ==> #[trigger] model::data_view(data)[i]
                == model::datum_view(data[i]),
        model::exprs_view(exprs).len() == exprs.len(),
        forall|i: int|
            0 <= i < exprs.len() ==> #[trigger] model::exprs_view(exprs)[i]
                == model::expr_view(exprs[i]),
        model::definitions_view(definitions).len() == definitions.len(),
        forall|i: int|
            0 <= i < definitions.len() ==> #[trigger] model::definitions_view(definitions)[i]
                == model::definition_view(definitions[i]),
        model::bindings_view(bindings).len() == bindings.len(),
        forall|i: int|
            0 <= i < bindings.len() ==> #[trigger] model::bindings_view(bindings)[i]
                == model::binding_view(bindings[i]),
        model::mv_bindings_view(mv_bindings).len() == mv_bindings.len(),
        forall|i: int|
            0 <= i < mv_bindings.len() ==> #[trigger] model::mv_bindings_view(mv_bindings)[i]
                == model::mv_binding_view(mv_bindings[i]),
        model::case_clauses_view(case_clauses).len() == case_clauses.len(),
        forall|i: int|
            0 <= i < case_clauses.len() ==> #[trigger] model::case_clauses_view(case_clauses)[i]
                == model::case_clause_view(case_clauses[i]),
        model::cond_clauses_view(cond_clauses).len() == cond_clauses.len(),
        forall|i: int|
            0 <= i < cond_clauses.len() ==> #[trigger] model::cond_clauses_view(cond_clauses)[i]
                == model::cond_clause_view(cond_clauses[i]),
        model::forms_view(forms).len() == forms.len(),
        forall|i: int|
            0 <= i < forms.len() ==> #[trigger] model::forms_view(forms)[i]
                == model::form_view(forms[i]),
        model::idents_view(idents).len() == idents.len(),
        forall|i: int|
            0 <= i < idents.len() ==> #[trigger] model::idents_view(idents)[i] == idents[i].0@,
        lexical::spanned_views(tokens).len() == tokens.len(),
        forall|i: int|
            0 <= i < tokens.len() ==> #[trigger] lexical::spanned_views(tokens)[i]
                == lexical::spanned_view(tokens[i]),
{
}

/// The model of a datum is that of its kind and its parts.
pub proof fn law_datum_models(
    b: bool,
    c: char,
    n: i64,
    s: String,
    number: Number,
    car: Box<Datum>,
    cdr: Box<Datum>,
    items: Vec<Datum>,
    bytes: Vec<u8>,
)
    ensures
        model::number_view(Number::Fixnum(n)) == NumberView::Fixnum(n as int),
        model::number_view(Number::Flonum(s)) == NumberView::Flonum(s@),
        model::datum_view(Datum::Boolean(b)) == DatumView::Boolean(b),
        model::datum_view(Datum::Character(c)) == DatumView::Character(c),
        model::datum_view(Datum::Number(number)) == DatumView::Number(model::number_view(number)),
        model::datum_view(Datum::String(s)) == DatumView::String(s@),
        model::datum_view(Datum::Symbol(s)) == DatumView::Symbol(s@),
        model::datum_view(Datum::Null) == DatumView::Null,
        model::datum_view(Datum::Pair(car, cdr)) == DatumView::Pair(
            Box::new(model::datum_view(*car)),
            Box::new(model::datum_view(*cdr)),
        ),
        model::datum_view(Datum::Vector(items)) == DatumView::Vector(model::data_view(items@)),
        model::datum_view(Datum::ByteVector(bytes)) == DatumView::ByteVector(bytes@),
{
}

/// The model of formals, of a binding, of a body, of a definition or of a clause
/// holds the models of its parts.
pub proof fn law_part_models(
    name: Ident,
    fixed: Vec<Ident>,
    rest: Option<Ident>,
    formals: Formals,
    init: Box<Expr>,
    other: Box<Expr>,
    definitions: Vec<Definition>,
    exprs: Vec<Expr>,
    body: Body,
    data: Vec<Datum>,
)
    ensures
        model::name_view(Some(name)) == Some(name.0@),
        model::name_view(None) is None,
        model::formals_view((Formals { fixed, rest })) == (FormalsView {
            fixed: model::idents_view(fixed@),
            rest: model::name_view(rest),
        }),
        model::binding_view((Binding { name, init })) == (BindingView {
            name: name.0@,
            init: Box::new(model::expr_view(*init)),
        }),
        model::mv_binding_view((MvBinding { formals, init })) == (MvBindingView {
            formals: model::formals_view(formals),
            init: Box::new(model::expr_view(*init)),
        }),
        model::body_view((Body { definitions, expressions: exprs })) == (BodyView {
            definitions: model::definitions_view(definitions@),
            expressions: model::exprs_view(exprs@),
        }),
        model::definition_view((Definition::Variable { name, init: Some(init) })) == (
        DefinitionView::Variable {
            name: name.0@,
            init: Some(Box::new(model::expr_view(*init))),
        }),
        model::definition_view((Definition::Variable { name, init: None })) == (
        DefinitionView::Variable { name: name.0@, init: None }),
        model::definition_view((Definition::Function { name, formals, body })) == (
        DefinitionView::Function {
            name: name.0@,
            formals: model::formals_view(formals),
            body: model::body_view(body),
        }),
        model::definition_view((Definition::Syntax { keyword: name, init })) == (
        DefinitionView::Syntax { keyword: name.0@, init: Box::new(model::expr_view(*init)) }),
        model::case_clause_view((CaseClause::Matches { data, body: exprs })) == (
        CaseClauseView::Matches {
            data: model::data_view(data@),
            body: model::exprs_view(exprs@),
        }),
        model::case_clause_view((CaseClause::Else { body: exprs })) == (CaseClauseView::Else {
            body: model::exprs_view(exprs@),
        }),
        model::cond_clause_view((CondClause::Clause { test: init, body: exprs })) == (
        CondClauseView::Clause {
            test: Box::new(model::expr_view(*init)),
            body: model::exprs_view(exprs@),
        }),
        model::cond_clause_view((CondClause::Arrow { test: init, recipient: other })) == (
        CondClauseView::Arrow {
            test: Box::new(model::expr_view(*init)),
            recipient: Box::new(model::expr_view(*other)),
        }),
        model::cond_clause_view((CondClause::Else { body: exprs })) == (CondClauseView::Else {
            body: model::exprs_view(exprs@),
        }),
{
}

/// The model of an expression without bindings holds the models of its parts.
pub proof fn law_expr_models(
    d: Datum,
    name: Ident,
    first: Box<Expr>,
    second: Box<Expr>,
    third: Box<Expr>,
    exprs: Vec<Expr>,
    formals: Formals,
    body: Body,
    case_clauses: Vec<CaseClause>,
    cond_clauses: Vec<CondClause>,
)
    ensures
        model::expr_view(Expr::Literal(d)) == ExprView::Literal(model::datum_view(d)),
        model::expr_view(Expr::Var(name)) == ExprView::Var(name.0@),
        model::expr_view(Expr::Quote(d)) == ExprView::Quote(model::datum_view(d)),
        model::expr_view((Expr::Lambda { formals, body })) == (ExprView::Lambda {
            formals: model::formals_view(formals),
            body: model::body_view(body),
        }),
        model::expr_view(
            (Expr::If {
                test: first,
                consequent: second,
                alternate: Some(third),
            }),
        ) == (ExprView::If {
            test: Box::new(model::expr_view(*first)),
            consequent: Box::new(model::expr_view(*second)),
            alternate: Some(Box::new(model::expr_view(*third))),
        }),
        model::expr_view((Expr::If { test: first, consequent: second, alternate: None })) == (
        ExprView::If {
            test: Box::new(model::expr_view(*first)),
            consequent: Box::new(model::expr_view(*second)),
            alternate: None,
        }),
        model::expr_view((Expr::SetBang { var: name, value: first })) == (ExprView::SetBang {
            var: name.0@,
            value: Box::new(model::expr_view(*first)),
        }),
        model::expr_view(Expr::Cond(cond_clauses)) == ExprView::Cond(
            model::cond_clauses_view(cond_clauses@),
        ),
        model::expr_view((Expr::Case { key: first, clauses: case_clauses })) == (ExprView::Case {
            key: Box::new(model::expr_view(*first)),
            clauses: model::case_clauses_view(case_clauses@),
        }),
        model::expr_view((Expr::When { test: first, body: exprs })) == (ExprView::When {
            test: Box::new(model::expr_view(*first)),
            body: model::exprs_view(exprs@),
        }),
        model::expr_view((Expr::Unless { test: first, body: exprs })) == (ExprView::Unless {
            test: Box::new(model::expr_view(*first)),
            body: model::exprs_view(exprs@),
        }),
        model::expr_view(Expr::And(exprs)) == ExprView::And(model::exprs_view(exprs@)),
        model::expr_view(Expr::Or(exprs)) == ExprView::Or(model::exprs_view(exprs@)),
        model::expr_view(Expr::Begin(exprs)) == ExprView::Begin(model::exprs_view(exprs@)),
        model::expr_view((Expr::Application { operator: first, operands: exprs })) == (
        ExprView::Application {
            operator: Box::new(model::expr_view(*first)),
            operands: model::exprs_view(exprs@),
        }),
{
    assert(model::optional_expr_view(Some(third)) == Some(Box::new(model::expr_view(*third))));
    assert(model::optional_expr_view(None) is None);
}

/// The model of a binding form holds the models of its bindings and its body.
pub proof fn law_binding_form_models(
    name: Option<Ident>,
    bindings: Vec<Binding>,
    mv_bindings: Vec<MvBinding>,
    body: Body,
)
    ensures
        model::expr_view((Expr::Let { name, bindings, body })) == (ExprView::Let {
            name: model::name_view(name),
            bindings: model::bindings_view(bindings@),
            body: model::body_view(body),
        }),
        model::expr_view((Expr::LetStar { bindings, body })) == (ExprView::LetStar {
            bindings: model::bindings_view(bindings@),
            body: model::body_view(body),
        }),
        model::expr_view((Expr::LetRec { bindings, body })) == (ExprView::LetRec {
            bindings: model::bindings_view(bindings@),
            body: model::body_view(body),
        }),
        model::expr_view((Expr::LetRecStar { bindings, body })) == (ExprView::LetRecStar {
            bindings: model::bindings_view(bindings@),
            body: model::body_view(body),
        }),
        model::expr_view((Expr::LetValues { bindings: mv_bindings, body })) == (
        ExprView::LetValues {
            bindings: model::mv_bindings_view(mv_bindings@),
            body: model::body_view(body),
        }),
        model::expr_view((Expr::LetStarValues { bindings: mv_bindings, body })) == (
        ExprView::LetStarValues {
            bindings: model::mv_bindings_view(mv_bindings@),
            body: model::body_view(body),
        }),
{
}

/// The model of a top-level form is that of its kind and what it holds.
pub proof fn law_form_models(d: Definition, e: Expr, forms: Vec<TopLevelForm>)
    ensures
        model::form_view(TopLevelForm::Definition(d)) == TopLevelFormView::Definition(
            model::definition_view(d),
        ),
        model::form_view(TopLevelForm::Expr(e)) == TopLevelFormView::Expr(model::expr_view(e)),
        model::form_view(TopLevelForm::Begin(forms)) == TopLevelFormView::Begin(
            model::forms_view(forms@),
        ),
{
}

/// The model of a token is that of its kind and its value; with its position it
/// keeps that.
pub proof fn law_token_models(b: bool, c: char, n: Number, s: String, token: Token, span: Span)
    ensures
        lexical::token_view(Token::LeftParen) is LeftParen,
        lexical::token_view(Token::RightParen) is RightParen,
        lexical::token_view(Token::Dot) is Dot,
        lexical::token_view(Token::Quote) is Quote,
        lexical::token_view(Token::QuasiQuote) is QuasiQuote,
        lexical::token_view(Token::Unquote) is Unquote,
        lexical::token_view(Token::UnquoteSplicing) is UnquoteSplicing,
        lexical::token_view(Token::VectorPrefix) is VectorPrefix,
        lexical::token_view(Token::ByteVectorPrefix) is ByteVectorPrefix,
        lexical::token_view(Token::DatumComment) is DatumComment,
        lexical::token_view(Token::Eof) is Eof,
        lexical::token_view(Token::Boolean(b)) == TokenView::Boolean(b),
        lexical::token_view(Token::Character(c)) == TokenView::Character(c),
        lexical::token_view(Token::Number(n)) == TokenView::Number(model::number_view(n)),
        lexical::token_view(Token::String(s)) == TokenView::String(s@),
        lexical::token_view(Token::Symbol(s)) == TokenView::Symbol(s@),
        lexical::spanned_view((SpannedToken { token, span })) == (SpannedView {
            token: lexical::token_view(token),
            span,
        }),
{
}

/// The model of a result is that of what was read, or the message and the
/// position of the error.
pub proof fn law_result_models(
    tokens: Vec<SpannedToken>,
    lex_error: LexError,
    program: Program,
    e: Expr,
    error: ParseError,
)
    ensures
        lexical::tokens_result(Ok(tokens)) == Ok::<_, ErrorView>(
            lexical::spanned_views(tokens@),
        ),
        lexical::tokens_result(Err(lex_error)) == Err::<Seq<SpannedView>, _>(
            (ErrorView { message: lex_error.message@, span: lex_error.span }),
        ),
        parser::program_result(Ok(program)) == Ok::<_, ErrorView>(
            model::forms_view(program.forms@),
        ),
        parser::program_result(Err(error)) == Err::<Seq<TopLevelFormView>, _>(
            (ErrorView { message: error.message@, span: error.span }),
        ),
        parser::expr_result(Ok(e)) == Ok::<_, ErrorView>(model::expr_view(e)),
        parser::expr_result(Err(error)) == Err::<ExprView, _>(
            (ErrorView { message: error.message@, span: error.span }),
        ),
{
}

/// A lexical error as a parsing error keeps its message and its position.
pub proof fn law_error_conversion(e: LexError)
    ensures
        <ParseError as vstd::std_specs::convert::FromSpec<LexError>>::obeys_from_spec(),
        <ParseError as vstd::std_specs::convert::FromSpec<LexError>>::from_spec(e) == (ParseError {
            message: e.message,
            span: e.span,
        }),
{
}

} // verus!
