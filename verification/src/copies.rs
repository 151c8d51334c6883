//! Copies of syntax trees: a copy has the same model as what it copies.

use crate::ast::{
    Binding, Body, CaseClause, CondClause, Datum, Definition, Expr, Formals, Ident, MvBinding,
    Program, TopLevelForm,
};
use crate::model;
use vstd::prelude::*;

verus! {

fn copy_idents(v: &Vec<Ident>) -> (copy: Vec<Ident>)
    ensures
        model::idents_view(copy@) == model::idents_view(v@),
{
    let mut copy: Vec<Ident> = Vec::new();
    let mut i: usize = 0;
    while i < v.len()
        invariant
            i <= v.len(),
            copy@.len() == i,
            forall|k: int| 0 <= k < i ==> (#[trigger] copy@[k]).0@ == v@[k].0@,
        decreases v.len() - i,
    {
        copy.push(v[i].clone());
        i += 1;
    }
    assert(model::idents_view(copy@) =~= model::idents_view(v@));
    copy
}

fn copy_name(name: &Option<Ident>) -> (copy: Option<Ident>)
    ensures
        model::name_view(copy) == model::name_view(*name),
{
    match name {
        Some(id) => Some(id.clone()),
        None => None,
    }
}

fn copy_bytes(v: &Vec<u8>) -> (copy: Vec<u8>)
    ensures
        copy@ == v@,
{
    let mut copy: Vec<u8> = Vec::new();
    let mut i: usize = 0;
    while i < v.len()
        invariant
            i <= v.len(),
            copy@ == v@.take(i as int),
        decreases v.len() - i,
    {
        copy.push(v[i]);
        i += 1;
        assert(copy@ =~= v@.take(i as int));
    }
    assert(v@.take(v@.len() as int) =~= v@);
    copy
}

fn copy_datum(v: &Datum) -> (copy: Datum)
    ensures
        model::datum_view(copy) == model::datum_view(*v),
    decreases v,
{
    match v {
        Datum::Boolean(b) => Datum::Boolean(*b),
        Datum::Character(c) => Datum::Character(*c),
        Datum::Number(n) => Datum::Number(n.clone()),
        Datum::String(s) => Datum::String(s.clone()),
        Datum::Symbol(s) => Datum::Symbol(s.clone()),
        Datum::Null => Datum::Null,
        Datum::Pair(car, cdr) => Datum::Pair(
            Box::new(copy_datum(&**car)),
            Box::new(copy_datum(&**cdr)),
        ),
        Datum::Vector(items) => Datum::Vector(copy_data(items)),
        Datum::ByteVector(bytes) => Datum::ByteVector(copy_bytes(bytes)),
    }
}

fn copy_data(v: &Vec<Datum>) -> (copy: Vec<Datum>)
    ensures
        model::data_view(copy@) == model::data_view(v@),
    decreases v,
{
    let mut copy: Vec<Datum> = Vec::new();
    let mut i: usize = 0;
    while i < v.len()
        invariant
            i <= v.len(),
            copy@.len() == i,
            forall|k: int|
                0 <= k < i ==> model::datum_view(#[trigger] copy@[k]) == model::datum_view(v@[k]),
        decreases v.len() - i,
    {
        copy.push(copy_datum(&v[i]));
        i += 1;
    }
    assert(model::data_view(copy@) =~= model::data_view(v@));
    copy
}

fn copy_optional_expr(v: &Option<Box<Expr>>) -> (copy: Option<Box<Expr>>)
    ensures
        model::optional_expr_view(copy) == model::optional_expr_view(*v),
    decreases v,
{
    match v {
        Some(e) => Some(Box::new(copy_expr(&**e))),
        None => None,
    }
}

fn copy_expr(v: &Expr) -> (copy: Expr)
    ensures
        model::expr_view(copy) == model::expr_view(*v),
    decreases v,
{
    match v {
        Expr::Literal(d) => Expr::Literal(d.clone()),
        Expr::Var(id) => Expr::Var(id.clone()),
        Expr::Quote(d) => Expr::Quote(d.clone()),
        Expr::Lambda { formals, body } => Expr::Lambda {
            formals: formals.clone(),
            body: copy_body(body),
        },
        Expr::If { test, consequent, alternate } => Expr::If {
            test: Box::new(copy_expr(&**test)),
            consequent: Box::new(copy_expr(&**consequent)),
            alternate: copy_optional_expr(alternate),
        },
        Expr::SetBang { var, value } => Expr::SetBang {
            var: var.clone(),
            value: Box::new(copy_expr(&**value)),
        },
        Expr::Cond(clauses) => Expr::Cond(copy_cond_clauses(clauses)),
        Expr::Case { key, clauses } => Expr::Case {
            key: Box::new(copy_expr(&**key)),
            clauses: copy_case_clauses(clauses),
        },
        Expr::When { test, body } => Expr::When {
            test: Box::new(copy_expr(&**test)),
            body: copy_exprs(body),
        },
        Expr::Unless { test, body } => Expr::Unless {
            test: Box::new(copy_expr(&**test)),
            body: copy_exprs(body),
        },
        Expr::And(exprs) => Expr::And(copy_exprs(exprs)),
        Expr::Or(exprs) => Expr::Or(copy_exprs(exprs)),
        Expr::Let { name, bindings, body } => Expr::Let {
            name: copy_name(name),
            bindings: copy_bindings(bindings),
            body: copy_body(body),
        },
        Expr::LetStar { bindings, body } => Expr::LetStar {
            bindings: copy_bindings(bindings),
            body: copy_body(body),
        },
        Expr::LetRec { bindings, body } => Expr::LetRec {
            bindings: copy_bindings(bindings),
            body: copy_body(body),
        },
        Expr::LetRecStar { bindings, body } => Expr::LetRecStar {
            bindings: copy_bindings(bindings),
            body: copy_body(body),
        },
        Expr::LetValues { bindings, body } => Expr::LetValues {
            bindings: copy_mv_bindings(bindings),
            body: copy_body(body),
        },
        Expr::LetStarValues { bindings, body } => Expr::LetStarValues {
            bindings: copy_mv_bindings(bindings),
            body: copy_body(body),
        },
        Expr::Begin(exprs) => Expr::Begin(copy_exprs(exprs)),
        Expr::Application { operator, operands } => Expr::Application {
            operator: Box::new(copy_expr(&**operator)),
            operands: copy_exprs(operands),
        },
    }
}

fn copy_exprs(v: &Vec<Expr>) -> (copy: Vec<Expr>)
    ensures
        model::exprs_view(copy@) == model::exprs_view(v@),
    decreases v,
{
    let mut copy: Vec<Expr> = Vec::new();
    let mut i: usize = 0;
    while i < v.len()
        invariant
            i <= v.len(),
            copy@.len() == i,
            forall|k: int|
                0 <= k < i ==> model::expr_view(#[trigger] copy@[k]) == model::expr_view(v@[k]),
        decreases v.len() - i,
    {
        copy.push(copy_expr(&v[i]));
        i += 1;
    }
    assert(model::exprs_view(copy@) =~= model::exprs_view(v@));
    copy
}

fn copy_body(v: &Body) -> (copy: Body)
    ensures
        model::body_view(copy) == model::body_view(*v),
    decreases v,
{
    Body {
        definitions: copy_definitions(&v.definitions),
        expressions: copy_exprs(&v.expressions),
    }
}

fn copy_definition(v: &Definition) -> (copy: Definition)
    ensures
        model::definition_view(copy) == model::definition_view(*v),
    decreases v,
{
    match v {
        Definition::Variable { name, init } => Definition::Variable {
            name: name.clone(),
            init: copy_optional_expr(init),
        },
        Definition::Function { name, formals, body } => Definition::Function {
            name: name.clone(),
            formals: formals.clone(),
            body: copy_body(body),
        },
        Definition::Syntax { keyword, init } => Definition::Syntax {
            keyword: keyword.clone(),
            init: Box::new(copy_expr(&**init)),
        },
    }
}

fn copy_definitions(v: &Vec<Definition>) -> (copy: Vec<Definition>)
    ensures
        model::definitions_view(copy@) == model::definitions_view(v@),
    decreases v,
{
    let mut copy: Vec<Definition> = Vec::new();
    let mut i: usize = 0;
    while i < v.len()
        invariant
            i <= v.len(),
            copy@.len() == i,
            forall|k: int|
                0 <= k < i ==>
                    model::definition_view(#[trigger] copy@[k]) == model::definition_view(v@[k]),
        decreases v.len() - i,
    {
        copy.push(copy_definition(&v[i]));
        i += 1;
    }
    assert(model::definitions_view(copy@) =~= model::definitions_view(v@));
    copy
}

fn copy_binding(v: &Binding) -> (copy: Binding)
    ensures
        model::binding_view(copy) == model::binding_view(*v),
    decreases v,
{
    Binding { name: v.name.clone(), init: Box::new(copy_expr(&*v.init)) }
}

fn copy_bindings(v: &Vec<Binding>) -> (copy: Vec<Binding>)
    ensures
        model::bindings_view(copy@) == model::bindings_view(v@),
    decreases v,
{
    let mut copy: Vec<Binding> = Vec::new();
    let mut i: usize = 0;
    while i < v.len()
        invariant
            i <= v.len(),
            copy@.len() == i,
            forall|k: int|
                0 <= k < i ==>
                    model::binding_view(#[trigger] copy@[k]) == model::binding_view(v@[k]),
        decreases v.len() - i,
    {
        copy.push(copy_binding(&v[i]));
        i += 1;
    }
    assert(model::bindings_view(copy@) =~= model::bindings_view(v@));
    copy
}

fn copy_mv_binding(v: &MvBinding) -> (copy: MvBinding)
    ensures
        model::mv_binding_view(copy) == model::mv_binding_view(*v),
    decreases v,
{
    MvBinding { formals: v.formals.clone(), init: Box::new(copy_expr(&*v.init)) }
}

fn copy_mv_bindings(v: &Vec<MvBinding>) -> (copy: Vec<MvBinding>)
    ensures
        model::mv_bindings_view(copy@) == model::mv_bindings_view(v@),
    decreases v,
{
    let mut copy: Vec<MvBinding> = Vec::new();
    let mut i: usize = 0;
    while i < v.len()
        invariant
            i <= v.len(),
            copy@.len() == i,
            forall|k: int|
                0 <= k < i ==>
                    model::mv_binding_view(#[trigger] copy@[k]) == model::mv_binding_view(v@[k]),
        decreases v.len() - i,
    {
        copy.push(copy_mv_binding(&v[i]));
        i += 1;
    }
    assert(model::mv_bindings_view(copy@) =~= model::mv_bindings_view(v@));
    copy
}

fn copy_case_clause(v: &CaseClause) -> (copy: CaseClause)
    ensures
        model::case_clause_view(copy) == model::case_clause_view(*v),
    decreases v,
{
    match v {
        CaseClause::Matches { data, body } => CaseClause::Matches {
            data: copy_data(data),
            body: copy_exprs(body),
        },
        CaseClause::Else { body } => CaseClause::Else { body: copy_exprs(body) },
    }
}

fn copy_case_clauses(v: &Vec<CaseClause>) -> (copy: Vec<CaseClause>)
    ensures
        model::case_clauses_view(copy@) == model::case_clauses_view(v@),
    decreases v,
{
    let mut copy: Vec<CaseClause> = Vec::new();
    let mut i: usize = 0;
    while i < v.len()
        invariant
            i <= v.len(),
            copy@.len() == i,
            forall|k: int|
                0 <= k < i ==>
                    model::case_clause_view(#[trigger] copy@[k]) == model::case_clause_view(v@[k]),
        decreases v.len() - i,
    {
        copy.push(copy_case_clause(&v[i]));
        i += 1;
    }
    assert(model::case_clauses_view(copy@) =~= model::case_clauses_view(v@));
    copy
}

fn copy_cond_clause(v: &CondClause) -> (copy: CondClause)
    ensures
        model::cond_clause_view(copy) == model::cond_clause_view(*v),
    decreases v,
{
    match v {
        CondClause::Clause { test, body } => CondClause::Clause {
            test: Box::new(copy_expr(&**test)),
            body: copy_exprs(body),
        },
        CondClause::Arrow { test, recipient } => CondClause::Arrow {
            test: Box::new(copy_expr(&**test)),
            recipient: Box::new(copy_expr(&**recipient)),
        },
        CondClause::Else { body } => CondClause::Else { body: copy_exprs(body) },
    }
}

fn copy_cond_clauses(v: &Vec<CondClause>) -> (copy: Vec<CondClause>)
    ensures
        model::cond_clauses_view(copy@) == model::cond_clauses_view(v@),
    decreases v,
{
    let mut copy: Vec<CondClause> = Vec::new();
    let mut i: usize = 0;
    while i < v.len()
        invariant
            i <= v.len(),
            copy@.len() == i,
            forall|k: int|
                0 <= k < i ==>
                    model::cond_clause_view(#[trigger] copy@[k]) == model::cond_clause_view(v@[k]),
        decreases v.len() - i,
    {
        copy.push(copy_cond_clause(&v[i]));
        i += 1;
    }
    assert(model::cond_clauses_view(copy@) =~= model::cond_clauses_view(v@));
    copy
}

fn copy_form(v: &TopLevelForm) -> (copy: TopLevelForm)
    ensures
        model::form_view(copy) == model::form_view(*v),
    decreases v,
{
    match v {
        TopLevelForm::Definition(d) => TopLevelForm::Definition(d.clone()),
        TopLevelForm::Expr(e) => TopLevelForm::Expr(e.clone()),
        TopLevelForm::Begin(forms) => TopLevelForm::Begin(copy_forms(forms)),
    }
}

fn copy_forms(v: &Vec<TopLevelForm>) -> (copy: Vec<TopLevelForm>)
    ensures
        model::forms_view(copy@) == model::forms_view(v@),
    decreases v,
{
    let mut copy: Vec<TopLevelForm> = Vec::new();
    let mut i: usize = 0;
    while i < v.len()
        invariant
            i <= v.len(),
            copy@.len() == i,
            forall|k: int|
                0 <= k < i ==> model::form_view(#[trigger] copy@[k]) == model::form_view(v@[k]),
        decreases v.len() - i,
    {
        copy.push(copy_form(&v[i]));
        i += 1;
    }
    assert(model::forms_view(copy@) =~= model::forms_view(v@));
    copy
}

impl Clone for Ident {
    fn clone(&self) -> (copy: Self)
        ensures
            copy == *self,
    {
        Ident(self.0.clone())
    }
}

impl Clone for Formals {
    fn clone(&self) -> (copy: Self)
        ensures
            model::formals_view(copy) == model::formals_view(*self),
    {
        Formals { fixed: copy_idents(&self.fixed), rest: copy_name(&self.rest) }
    }
}

impl Clone for Datum {
    fn clone(&self) -> (copy: Self)
        ensures
            model::datum_view(copy) == model::datum_view(*self),
    {
        copy_datum(self)
    }
}

impl Clone for Binding {
    fn clone(&self) -> (copy: Self)
        ensures
            model::binding_view(copy) == model::binding_view(*self),
    {
        copy_binding(self)
    }
}

impl Clone for MvBinding {
    fn clone(&self) -> (copy: Self)
        ensures
            model::mv_binding_view(copy) == model::mv_binding_view(*self),
    {
        copy_mv_binding(self)
    }
}

impl Clone for Body {
    fn clone(&self) -> (copy: Self)
        ensures
            model::body_view(copy) == model::body_view(*self),
    {
        copy_body(self)
    }
}

impl Clone for Definition {
    fn clone(&self) -> (copy: Self)
        ensures
            model::definition_view(copy) == model::definition_view(*self),
    {
        copy_definition(self)
    }
}

impl Clone for CaseClause {
    fn clone(&self) -> (copy: Self)
        ensures
            model::case_clause_view(copy) == model::case_clause_view(*self),
    {
        copy_case_clause(self)
    }
}

impl Clone for CondClause {
    fn clone(&self) -> (copy: Self)
        ensures
            model::cond_clause_view(copy) == model::cond_clause_view(*self),
    {
        copy_cond_clause(self)
    }
}

impl Clone for Expr {
    fn clone(&self) -> (copy: Self)
        ensures
            model::expr_view(copy) == model::expr_view(*self),
    {
        copy_expr(self)
    }
}

impl Clone for TopLevelForm {
    fn clone(&self) -> (copy: Self)
        ensures
            model::form_view(copy) == model::form_view(*self),
    {
        copy_form(self)
    }
}

impl Clone for Program {
    fn clone(&self) -> (copy: Self)
        ensures
            model::program_view(copy) == model::program_view(*self),
    {
        Program { forms: copy_forms(&self.forms) }
    }
}

} // verus!
