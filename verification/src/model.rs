//! The mathematical model of the syntax tree.
//!
//! Every node of [`crate::ast`] has a counterpart here in which text is a
//! sequence of characters and a list is a sequence. The functions `*_view`
//! take a node to its counterpart; contracts speak of the counterparts.

use crate::ast::{
    Binding, Body, CaseClause, CondClause, Datum, Definition, Expr, Formals, Ident, MvBinding,
    Number, Program, TopLevelForm,
};
use vstd::prelude::*;

verus! {

/// The model of a [`Number`].
pub enum NumberView {
    Fixnum(int),
    Flonum(Seq<char>),
}

/// The model of a [`Datum`].
pub enum DatumView {
    Boolean(bool),
    Character(char),
    Number(NumberView),
    String(Seq<char>),
    Symbol(Seq<char>),
    Null,
    Pair(Box<DatumView>, Box<DatumView>),
    Vector(Seq<DatumView>),
    ByteVector(Seq<u8>),
}

/// The model of [`Formals`].
pub struct FormalsView {
    pub fixed: Seq<Seq<char>>,
    pub rest: Option<Seq<char>>,
}

/// The model of a [`Binding`].
pub struct BindingView {
    pub name: Seq<char>,
    pub init: Box<ExprView>,
}

/// The model of an [`MvBinding`].
pub struct MvBindingView {
    pub formals: FormalsView,
    pub init: Box<ExprView>,
}

/// The model of a [`Body`].
pub struct BodyView {
    pub definitions: Seq<DefinitionView>,
    pub expressions: Seq<ExprView>,
}

/// The model of a [`Definition`].
#[allow(inconsistent_fields)]
pub enum DefinitionView {
    Variable { name: Seq<char>, init: Option<Box<ExprView>> },
    Function { name: Seq<char>, formals: FormalsView, body: BodyView },
    Syntax { keyword: Seq<char>, init: Box<ExprView> },
}

/// The model of a [`CaseClause`].
pub enum CaseClauseView {
    Matches { data: Seq<DatumView>, body: Seq<ExprView> },
    Else { body: Seq<ExprView> },
}

/// The model of a [`CondClause`].
pub enum CondClauseView {
    Clause { test: Box<ExprView>, body: Seq<ExprView> },
    Arrow { test: Box<ExprView>, recipient: Box<ExprView> },
    Else { body: Seq<ExprView> },
}

/// The model of an [`Expr`].
#[allow(inconsistent_fields)]
pub enum ExprView {
    Literal(DatumView),
    Var(Seq<char>),
    Quote(DatumView),
    Lambda { formals: FormalsView, body: BodyView },
    If { test: Box<ExprView>, consequent: Box<ExprView>, alternate: Option<Box<ExprView>> },
    SetBang { var: Seq<char>, value: Box<ExprView> },
    Cond(Seq<CondClauseView>),
    Case { key: Box<ExprView>, clauses: Seq<CaseClauseView> },
    When { test: Box<ExprView>, body: Seq<ExprView> },
    Unless { test: Box<ExprView>, body: Seq<ExprView> },
    And(Seq<ExprView>),
    Or(Seq<ExprView>),
    Let { name: Option<Seq<char>>, bindings: Seq<BindingView>, body: BodyView },
    LetStar { bindings: Seq<BindingView>, body: BodyView },
    LetRec { bindings: Seq<BindingView>, body: BodyView },
    LetRecStar { bindings: Seq<BindingView>, body: BodyView },
    LetValues { bindings: Seq<MvBindingView>, body: BodyView },
    LetStarValues { bindings: Seq<MvBindingView>, body: BodyView },
    Begin(Seq<ExprView>),
    Application { operator: Box<ExprView>, operands: Seq<ExprView> },
}

/// The model of a [`TopLevelForm`].
pub enum TopLevelFormView {
    Definition(DefinitionView),
    Expr(ExprView),
    Begin(Seq<TopLevelFormView>),
}

pub open spec fn number_view(n: Number) -> NumberView {
    match n {
        Number::Fixnum(v) => NumberView::Fixnum(v as int),
        Number::Flonum(text) => NumberView::Flonum(text@),
    }
}

pub open spec fn datum_view(d: Datum) -> DatumView
    decreases d,
{
    match d {
        Datum::Boolean(b) => DatumView::Boolean(b),
        Datum::Character(c) => DatumView::Character(c),
        Datum::Number(n) => DatumView::Number(number_view(n)),
        Datum::String(s) => DatumView::String(s@),
        Datum::Symbol(s) => DatumView::Symbol(s@),
        Datum::Null => DatumView::Null,
        Datum::Pair(car, cdr) => DatumView::Pair(
            Box::new(datum_view(*car)),
            Box::new(datum_view(*cdr)),
        ),
        Datum::Vector(items) => DatumView::Vector(data_view(items@)),
        Datum::ByteVector(bytes) => DatumView::ByteVector(bytes@),
    }
}

pub open spec fn data_view(v: Seq<Datum>) -> Seq<DatumView>
    decreases v,
{
    Seq::new(
        v.len(),
        |i: int|
            if 0 <= i < v.len() {
                datum_view(v[i])
            } else {
                DatumView::Null
            },
    )
}

pub open spec fn idents_view(v: Seq<Ident>) -> Seq<Seq<char>> {
    Seq::new(v.len(), |i: int| v[i].0@)
}

pub open spec fn name_view(name: Option<Ident>) -> Option<Seq<char>> {
    match name {
        Some(id) => Some(id.0@),
        None => None,
    }
}

pub open spec fn formals_view(f: Formals) -> FormalsView {
    FormalsView { fixed: idents_view(f.fixed@), rest: name_view(f.rest) }
}

pub open spec fn optional_expr_view(e: Option<Box<Expr>>) -> Option<Box<ExprView>>
    decreases e,
{
    match e {
        Some(inner) => Some(Box::new(expr_view(*inner))),
        None => None,
    }
}

pub open spec fn expr_view(e: Expr) -> ExprView
    decreases e,
{
    match e {
        Expr::Literal(d) => ExprView::Literal(datum_view(d)),
        Expr::Var(id) => ExprView::Var(id.0@),
        Expr::Quote(d) => ExprView::Quote(datum_view(d)),
        Expr::Lambda { formals, body } => ExprView::Lambda {
            formals: formals_view(formals),
            body: body_view(body),
        },
        Expr::If { test, consequent, alternate } => ExprView::If {
            test: Box::new(expr_view(*test)),
            consequent: Box::new(expr_view(*consequent)),
            alternate: optional_expr_view(alternate),
        },
        Expr::SetBang { var, value } => ExprView::SetBang {
            var: var.0@,
            value: Box::new(expr_view(*value)),
        },
        Expr::Cond(clauses) => ExprView::Cond(cond_clauses_view(clauses@)),
        Expr::Case { key, clauses } => ExprView::Case {
            key: Box::new(expr_view(*key)),
            clauses: case_clauses_view(clauses@),
        },
        Expr::When { test, body } => ExprView::When {
            test: Box::new(expr_view(*test)),
            body: exprs_view(body@),
        },
        Expr::Unless { test, body } => ExprView::Unless {
            test: Box::new(expr_view(*test)),
            body: exprs_view(body@),
        },
        Expr::And(exprs) => ExprView::And(exprs_view(exprs@)),
        Expr::Or(exprs) => ExprView::Or(exprs_view(exprs@)),
        Expr::Let { name, bindings, body } => ExprView::Let {
            name: name_view(name),
            bindings: bindings_view(bindings@),
            body: body_view(body),
        },
        Expr::LetStar { bindings, body } => ExprView::LetStar {
            bindings: bindings_view(bindings@),
            body: body_view(body),
        },
        Expr::LetRec { bindings, body } => ExprView::LetRec {
            bindings: bindings_view(bindings@),
            body: body_view(body),
        },
        Expr::LetRecStar { bindings, body } => ExprView::LetRecStar {
            bindings: bindings_view(bindings@),
            body: body_view(body),
        },
        Expr::LetValues { bindings, body } => ExprView::LetValues {
            bindings: mv_bindings_view(bindings@),
            body: body_view(body),
        },
        Expr::LetStarValues { bindings, body } => ExprView::LetStarValues {
            bindings: mv_bindings_view(bindings@),
            body: body_view(body),
        },
        Expr::Begin(exprs) => ExprView::Begin(exprs_view(exprs@)),
        Expr::Application { operator, operands } => ExprView::Application {
            operator: Box::new(expr_view(*operator)),
            operands: exprs_view(operands@),
        },
    }
}

pub open spec fn exprs_view(v: Seq<Expr>) -> Seq<ExprView>
    decreases v,
{
    Seq::new(
        v.len(),
        |i: int|
            if 0 <= i < v.len() {
                expr_view(v[i])
            } else {
                ExprView::Literal(DatumView::Null)
            },
    )
}

pub open spec fn body_view(b: Body) -> BodyView
    decreases b,
{
    BodyView {
        definitions: definitions_view(b.definitions@),
        expressions: exprs_view(b.expressions@),
    }
}

pub open spec fn definition_view(d: Definition) -> DefinitionView
    decreases d,
{
    match d {
        Definition::Variable { name, init } => DefinitionView::Variable {
            name: name.0@,
            init: optional_expr_view(init),
        },
        Definition::Function { name, formals, body } => DefinitionView::Function {
            name: name.0@,
            formals: formals_view(formals),
            body: body_view(body),
        },
        Definition::Syntax { keyword, init } => DefinitionView::Syntax {
            keyword: keyword.0@,
            init: Box::new(expr_view(*init)),
        },
    }
}

pub open spec fn definitions_view(v: Seq<Definition>) -> Seq<DefinitionView>
    decreases v,
{
    Seq::new(
        v.len(),
        |i: int|
            if 0 <= i < v.len() {
                definition_view(v[i])
            } else {
                DefinitionView::Variable { name: Seq::empty(), init: None }
            },
    )
}

pub open spec fn binding_view(b: Binding) -> BindingView
    decreases b,
{
    BindingView { name: b.name.0@, init: Box::new(expr_view(*b.init)) }
}

pub open spec fn bindings_view(v: Seq<Binding>) -> Seq<BindingView>
    decreases v,
{
    Seq::new(
        v.len(),
        |i: int|
            if 0 <= i < v.len() {
                binding_view(v[i])
            } else {
                BindingView {
                    name: Seq::empty(),
                    init: Box::new(ExprView::Literal(DatumView::Null)),
                }
            },
    )
}

pub open spec fn mv_binding_view(b: MvBinding) -> MvBindingView
    decreases b,
{
    MvBindingView { formals: formals_view(b.formals), init: Box::new(expr_view(*b.init)) }
}

pub open spec fn mv_bindings_view(v: Seq<MvBinding>) -> Seq<MvBindingView>
    decreases v,
{
    Seq::new(
        v.len(),
        |i: int|
            if 0 <= i < v.len() {
                mv_binding_view(v[i])
            } else {
                MvBindingView {
                    formals: FormalsView { fixed: Seq::empty(), rest: None },
                    init: Box::new(ExprView::Literal(DatumView::Null)),
                }
            },
    )
}

pub open spec fn case_clause_view(c: CaseClause) -> CaseClauseView
    decreases c,
{
    match c {
        CaseClause::Matches { data, body } => CaseClauseView::Matches {
            data: data_view(data@),
            body: exprs_view(body@),
        },
        CaseClause::Else { body } => CaseClauseView::Else { body: exprs_view(body@) },
    }
}

pub open spec fn case_clauses_view(v: Seq<CaseClause>) -> Seq<CaseClauseView>
    decreases v,
{
    Seq::new(
        v.len(),
        |i: int|
            if 0 <= i < v.len() {
                case_clause_view(v[i])
            } else {
                CaseClauseView::Else { body: Seq::empty() }
            },
    )
}

pub open spec fn cond_clause_view(c: CondClause) -> CondClauseView
    decreases c,
{
    match c {
        CondClause::Clause { test, body } => CondClauseView::Clause {
            test: Box::new(expr_view(*test)),
            body: exprs_view(body@),
        },
        CondClause::Arrow { test, recipient } => CondClauseView::Arrow {
            test: Box::new(expr_view(*test)),
            recipient: Box::new(expr_view(*recipient)),
        },
        CondClause::Else { body } => CondClauseView::Else { body: exprs_view(body@) },
    }
}

pub open spec fn cond_clauses_view(v: Seq<CondClause>) -> Seq<CondClauseView>
    decreases v,
{
    Seq::new(
        v.len(),
        |i: int|
            if 0 <= i < v.len() {
                cond_clause_view(v[i])
            } else {
                CondClauseView::Else { body: Seq::empty() }
            },
    )
}

pub open spec fn form_view(f: TopLevelForm) -> TopLevelFormView
    decreases f,
{
    match f {
        TopLevelForm::Definition(d) => TopLevelFormView::Definition(definition_view(d)),
        TopLevelForm::Expr(e) => TopLevelFormView::Expr(expr_view(e)),
        TopLevelForm::Begin(forms) => TopLevelFormView::Begin(forms_view(forms@)),
    }
}

pub open spec fn forms_view(v: Seq<TopLevelForm>) -> Seq<TopLevelFormView>
    decreases v,
{
    Seq::new(
        v.len(),
        |i: int|
            if 0 <= i < v.len() {
                form_view(v[i])
            } else {
                TopLevelFormView::Begin(Seq::empty())
            },
    )
}

pub open spec fn program_view(p: Program) -> Seq<TopLevelFormView> {
    forms_view(p.forms@)
}

} // verus!
