//! The grammar: what each sequence of tokens means as a syntax tree.
//!
//! Most functions here read a phrase that begins at the token with index `p`,
//! and give what the phrase stands for together with the index of the token
//! behind it, or the error with which it is rejected. [`program`] and
//! [`expression`] do so for a whole source, once [`uncommented`] has taken the
//! datum comments out of its tokens. A `#;` that is still among the tokens then
//! lacks its datum: where a phrase begins with it, the error is the one found
//! in reading that datum.

use crate::lexer::Span;
use crate::lexical;
use crate::lexical::{ErrorView, SpannedView, TokenView};
use crate::model::{
    BindingView, BodyView, CaseClauseView, CondClauseView, DatumView, DefinitionView, ExprView,
    FormalsView, MvBindingView, NumberView, TopLevelFormView,
};
use vstd::prelude::*;

verus! {

/// What was read and the index of the token behind it, or an error.
pub type Parsed<T> = Result<(T, int), ErrorView>;

// ---- Tokens ----

/// The token at index `p`. Behind the last token there is only the end of input.
pub open spec fn tok(t: Seq<SpannedView>, p: int) -> TokenView {
    if 0 <= p < t.len() {
        t[p].token
    } else {
        TokenView::Eof
    }
}

/// How many tokens there are from index `p` on.
pub open spec fn left(t: Seq<SpannedView>, p: int) -> nat {
    if p < t.len() {
        (t.len() - p) as nat
    } else {
        0
    }
}

/// The error that `message` describes, at the token with index `p`.
pub open spec fn fail(t: Seq<SpannedView>, p: int, message: Seq<char>) -> ErrorView {
    ErrorView { message, span: t[p].span }
}

/// Whether a list ends at `p`: by a parenthesis, or with the input.
pub open spec fn at_close(t: Seq<SpannedView>, p: int) -> bool {
    tok(t, p) is RightParen || tok(t, p) is Eof
}

/// Whether the symbol `name` stands at `p`.
pub open spec fn is_symbol(t: Seq<SpannedView>, p: int, name: Seq<char>) -> bool {
    tok(t, p) == TokenView::Symbol(name)
}

/// Past the closing parenthesis that has to stand at `p`.
pub open spec fn close(t: Seq<SpannedView>, p: int, message: Seq<char>) -> Result<int, ErrorView> {
    if tok(t, p) is RightParen {
        Ok(p + 1)
    } else {
        Err(fail(t, p, message))
    }
}

/// What was read, with the closing parenthesis that has to follow.
pub open spec fn closed<T>(t: Seq<SpannedView>, r: Parsed<T>, message: Seq<char>) -> Parsed<T> {
    match r {
        Err(e) => Err(e),
        Ok((v, q)) => match close(t, q, message) {
            Err(e) => Err(e),
            Ok(z) => Ok((v, z)),
        },
    }
}

/// One more item before the items read behind it.
pub open spec fn cons<T>(first: T, rest: Parsed<Seq<T>>) -> Parsed<Seq<T>> {
    match rest {
        Err(e) => Err(e),
        Ok((items, q)) => Ok((seq![first] + items, q)),
    }
}

/// Items that were read already before the items read behind them.
pub open spec fn prepend<T>(done: Seq<T>, rest: Parsed<Seq<T>>) -> Parsed<Seq<T>> {
    match rest {
        Err(e) => Err(e),
        Ok((items, q)) => Ok((done + items, q)),
    }
}

/// One item moves from the items still to be read to those read already.
pub proof fn lemma_prepend<T>(done: Seq<T>, first: T, rest: Parsed<Seq<T>>)
    ensures
        prepend(done, cons(first, rest)) == prepend(done.push(first), rest),
{
    if let Ok((items, q)) = rest {
        assert(done + (seq![first] + items) =~= done.push(first) + items);
    }
}

/// With nothing read yet, all is still to be read.
pub proof fn lemma_prepend_nothing<T>(rest: Parsed<Seq<T>>)
    ensures
        prepend(Seq::empty(), rest) == rest,
{
    if let Ok((items, q)) = rest {
        assert(Seq::empty() + items =~= items);
    }
}

/// A phrase that was read from `p` on, provided that it holds a token. Every
/// phrase of the grammar does.
pub open spec fn forward<T>(p: int, r: Parsed<T>) -> Parsed<T> {
    match r {
        Ok((v, q)) if q <= p => stalled(),
        _ => r,
    }
}

/// A phrase that was read from `p` on and may be empty.
pub open spec fn onward<T>(p: int, r: Parsed<T>) -> Parsed<T> {
    match r {
        Ok((v, q)) if q < p => stalled(),
        _ => r,
    }
}

/// What a phrase would be that ends before it begins.
pub open spec fn stalled<T>() -> Parsed<T> {
    Err(ErrorView { message: Seq::empty(), span: Span { line: 0, column: 0, offset: 0 } })
}

/// The identifier at `p`.
pub open spec fn ident(t: Seq<SpannedView>, p: int) -> Parsed<Seq<char>> {
    match tok(t, p) {
        TokenView::Symbol(name) => Ok((name, p + 1)),
        _ => Err(fail(t, p, "expected identifier"@)),
    }
}

// ---- Data ----

/// The datum that abbreviates a list of the symbol `name` and another datum.
pub open spec fn abbreviation(name: Seq<char>, r: Parsed<DatumView>) -> Parsed<DatumView> {
    match r {
        Err(e) => Err(e),
        Ok((d, q)) => Ok(
            (
                DatumView::Pair(
                    Box::new(DatumView::Symbol(name)),
                    Box::new(DatumView::Pair(Box::new(d), Box::new(DatumView::Null))),
                ),
                q,
            ),
        ),
    }
}

/// The datum at `p`.
pub open spec fn datum(t: Seq<SpannedView>, p: int) -> Parsed<DatumView>
    decreases left(t, p), 1nat,
{
    match tok(t, p) {
        TokenView::DatumComment => match forward(p, datum(t, p + 1)) {
            Err(e) => Err(e),
            Ok((_, q)) => datum(t, q),
        },
        TokenView::Boolean(b) => Ok((DatumView::Boolean(b), p + 1)),
        TokenView::Character(c) => Ok((DatumView::Character(c), p + 1)),
        TokenView::Number(n) => Ok((DatumView::Number(n), p + 1)),
        TokenView::String(s) => Ok((DatumView::String(s), p + 1)),
        TokenView::Symbol(s) => Ok((DatumView::Symbol(s), p + 1)),
        TokenView::Quote => abbreviation("quote"@, datum(t, p + 1)),
        TokenView::QuasiQuote => abbreviation("quasiquote"@, datum(t, p + 1)),
        TokenView::Unquote => abbreviation("unquote"@, datum(t, p + 1)),
        TokenView::UnquoteSplicing => abbreviation("unquote-splicing"@, datum(t, p + 1)),
        TokenView::VectorPrefix => match closed(
            t,
            data(t, p + 1),
            "expected ) to close vector"@,
        ) {
            Err(e) => Err(e),
            Ok((items, q)) => Ok((DatumView::Vector(items), q)),
        },
        TokenView::ByteVectorPrefix => match closed(
            t,
            octets(t, p + 1),
            "expected ) to close bytevector"@,
        ) {
            Err(e) => Err(e),
            Ok((bytes, q)) => Ok((DatumView::ByteVector(bytes), q)),
        },
        TokenView::LeftParen => closed(t, list_rest(t, p + 1), "expected ) to close list"@),
        TokenView::RightParen => Err(fail(t, p, "unexpected )"@)),
        TokenView::Dot => Err(fail(t, p, "unexpected ."@)),
        TokenView::Eof => Err(fail(t, p, "unexpected end of input"@)),
    }
}

/// The data from `p` to the end of the list.
pub open spec fn data(t: Seq<SpannedView>, p: int) -> Parsed<Seq<DatumView>>
    decreases left(t, p), 2nat,
{
    if at_close(t, p) {
        Ok((Seq::empty(), p))
    } else {
        match forward(p, datum(t, p)) {
            Err(e) => Err(e),
            Ok((d, q)) => cons(d, data(t, q)),
        }
    }
}

/// The byte that a datum stands for, if it does for one.
pub open spec fn octet(d: DatumView) -> Option<u8> {
    match d {
        DatumView::Number(NumberView::Fixnum(n)) => if 0 <= n <= 255 {
            Some(n as u8)
        } else {
            None
        },
        _ => None,
    }
}

/// The bytes from `p` to the end of the list.
pub open spec fn octets(t: Seq<SpannedView>, p: int) -> Parsed<Seq<u8>>
    decreases left(t, p), 2nat,
{
    if at_close(t, p) {
        Ok((Seq::empty(), p))
    } else {
        match forward(p, datum(t, p)) {
            Err(e) => Err(e),
            Ok((d, q)) => match octet(d) {
                None => Err(fail(t, q, "bytevector must contain exact uint8"@)),
                Some(n) => cons(n, octets(t, q)),
            },
        }
    }
}

/// The rest, from `p`, of a list: pairs, ending in the datum behind the dot or
/// in the empty list.
pub open spec fn list_rest(t: Seq<SpannedView>, p: int) -> Parsed<DatumView>
    decreases left(t, p), 2nat,
{
    if tok(t, p) is Dot {
        datum(t, p + 1)
    } else if at_close(t, p) {
        Ok((DatumView::Null, p))
    } else {
        match forward(p, datum(t, p)) {
            Err(e) => Err(e),
            Ok((d, q)) => match list_rest(t, q) {
                Err(e) => Err(e),
                Ok((rest, r)) => Ok((DatumView::Pair(Box::new(d), Box::new(rest)), r)),
            },
        }
    }
}

/// Data before the rest of a list.
pub open spec fn chain(items: Seq<DatumView>, rest: DatumView) -> DatumView
    decreases items.len(),
{
    if items.len() == 0 {
        rest
    } else {
        chain(
            items.drop_last(),
            DatumView::Pair(Box::new(items.last()), Box::new(rest)),
        )
    }
}

/// Data that were read already before the rest of a list read behind them.
pub open spec fn chained(done: Seq<DatumView>, rest: Parsed<DatumView>) -> Parsed<DatumView> {
    match rest {
        Err(e) => Err(e),
        Ok((d, q)) => Ok((chain(done, d), q)),
    }
}

// ---- Formals ----

/// One more fixed parameter before the formals read behind it.
pub open spec fn cons_formal(name: Seq<char>, rest: Parsed<FormalsView>) -> Parsed<FormalsView> {
    match rest {
        Err(e) => Err(e),
        Ok((f, q)) => Ok((FormalsView { fixed: seq![name] + f.fixed, rest: f.rest }, q)),
    }
}

/// Fixed parameters that were read already before the formals read behind them.
pub open spec fn prepend_formals(
    done: Seq<Seq<char>>,
    rest: Parsed<FormalsView>,
) -> Parsed<FormalsView> {
    match rest {
        Err(e) => Err(e),
        Ok((f, q)) => Ok((FormalsView { fixed: done + f.fixed, rest: f.rest }, q)),
    }
}

/// The formals from `p` to the end of their list.
pub open spec fn formals_rest(t: Seq<SpannedView>, p: int) -> Parsed<FormalsView>
    decreases left(t, p),
{
    if at_close(t, p) {
        Ok((FormalsView { fixed: Seq::empty(), rest: None }, p))
    } else if tok(t, p) is Dot {
        match ident(t, p + 1) {
            Err(e) => Err(e),
            Ok((name, q)) => Ok((FormalsView { fixed: Seq::empty(), rest: Some(name) }, q)),
        }
    } else {
        match ident(t, p) {
            Err(e) => Err(e),
            Ok((name, q)) => cons_formal(name, formals_rest(t, p + 1)),
        }
    }
}

/// The formals at `p`: a list, or one identifier for all arguments.
pub open spec fn formals(t: Seq<SpannedView>, p: int) -> Parsed<FormalsView> {
    match tok(t, p) {
        TokenView::Symbol(name) => Ok(
            (FormalsView { fixed: Seq::empty(), rest: Some(name) }, p + 1),
        ),
        TokenView::LeftParen => closed(
            t,
            formals_rest(t, p + 1),
            "expected ) to close formals"@,
        ),
        _ => Err(fail(t, p, "expected formals"@)),
    }
}

// ---- Expressions ----

/// The special forms.
#[derive(Clone, Copy, PartialEq, Eq, Structural)]
pub enum Form {
    Quote,
    Lambda,
    If,
    SetBang,
    Cond,
    Case,
    When,
    Unless,
    And,
    Or,
    Let,
    LetStar,
    LetRec,
    LetRecStar,
    LetValues,
    LetStarValues,
    Begin,
}

/// The special form that a keyword introduces.
pub open spec fn form_named(name: Seq<char>) -> Option<Form> {
    if name == "quote"@ {
        Some(Form::Quote)
    } else if name == "lambda"@ {
        Some(Form::Lambda)
    } else if name == "if"@ {
        Some(Form::If)
    } else if name == "set!"@ {
        Some(Form::SetBang)
    } else if name == "cond"@ {
        Some(Form::Cond)
    } else if name == "case"@ {
        Some(Form::Case)
    } else if name == "when"@ {
        Some(Form::When)
    } else if name == "unless"@ {
        Some(Form::Unless)
    } else if name == "and"@ {
        Some(Form::And)
    } else if name == "or"@ {
        Some(Form::Or)
    } else if name == "let"@ {
        Some(Form::Let)
    } else if name == "let*"@ {
        Some(Form::LetStar)
    } else if name == "letrec"@ {
        Some(Form::LetRec)
    } else if name == "letrec*"@ {
        Some(Form::LetRecStar)
    } else if name == "let-values"@ {
        Some(Form::LetValues)
    } else if name == "let*-values"@ {
        Some(Form::LetStarValues)
    } else if name == "begin"@ {
        Some(Form::Begin)
    } else {
        None
    }
}

/// The special form whose keyword stands at `p`.
pub open spec fn form_at(t: Seq<SpannedView>, p: int) -> Option<Form> {
    match tok(t, p) {
        TokenView::Symbol(name) => form_named(name),
        _ => None,
    }
}

/// A datum as a literal expression.
pub open spec fn literal(r: Parsed<DatumView>) -> Parsed<ExprView> {
    match r {
        Err(e) => Err(e),
        Ok((d, q)) => Ok((ExprView::Literal(d), q)),
    }
}

/// A datum as a quoted expression.
pub open spec fn quoted(r: Parsed<DatumView>) -> Parsed<ExprView> {
    match r {
        Err(e) => Err(e),
        Ok((d, q)) => Ok((ExprView::Quote(d), q)),
    }
}

/// The application of the variable `name` to a literal datum.
pub open spec fn applied(name: Seq<char>, r: Parsed<DatumView>) -> Parsed<ExprView> {
    match r {
        Err(e) => Err(e),
        Ok((d, q)) => Ok(
            (
                ExprView::Application {
                    operator: Box::new(ExprView::Var(name)),
                    operands: seq![ExprView::Literal(d)],
                },
                q,
            ),
        ),
    }
}

/// The expression at `p`.
pub open spec fn expr(t: Seq<SpannedView>, p: int) -> Parsed<ExprView>
    decreases left(t, p), 1nat,
{
    match tok(t, p) {
        TokenView::DatumComment => match forward(p, datum(t, p + 1)) {
            Err(e) => Err(e),
            Ok((_, q)) => expr(t, q),
        },
        TokenView::Quote => quoted(datum(t, p + 1)),
        TokenView::QuasiQuote => applied("quasiquote"@, datum(t, p + 1)),
        TokenView::Unquote => applied("unquote"@, datum(t, p + 1)),
        TokenView::UnquoteSplicing => applied("unquote-splicing"@, datum(t, p + 1)),
        TokenView::LeftParen => list_expr(t, p + 1),
        TokenView::VectorPrefix => literal(datum(t, p)),
        TokenView::ByteVectorPrefix => literal(datum(t, p)),
        TokenView::Boolean(b) => Ok((ExprView::Literal(DatumView::Boolean(b)), p + 1)),
        TokenView::Character(c) => Ok((ExprView::Literal(DatumView::Character(c)), p + 1)),
        TokenView::Number(n) => Ok((ExprView::Literal(DatumView::Number(n)), p + 1)),
        TokenView::String(s) => Ok((ExprView::Literal(DatumView::String(s)), p + 1)),
        TokenView::Symbol(s) => Ok((ExprView::Var(s), p + 1)),
        TokenView::Eof => Err(fail(t, p, "unexpected end of input"@)),
        TokenView::RightParen => Err(fail(t, p, "unexpected )"@)),
        TokenView::Dot => Err(fail(t, p, "unexpected ."@)),
    }
}

/// The expressions from `p` to the end of the list.
pub open spec fn exprs(t: Seq<SpannedView>, p: int) -> Parsed<Seq<ExprView>>
    decreases left(t, p), 2nat,
{
    if at_close(t, p) {
        Ok((Seq::empty(), p))
    } else {
        match forward(p, expr(t, p)) {
            Err(e) => Err(e),
            Ok((e, q)) => cons(e, exprs(t, q)),
        }
    }
}

/// The parenthesized expression whose contents begin at `p`: a special form, or
/// a procedure application.
pub open spec fn list_expr(t: Seq<SpannedView>, p: int) -> Parsed<ExprView>
    decreases left(t, p), 5nat,
{
    if tok(t, p) is RightParen {
        Ok((ExprView::Quote(DatumView::Null), p + 1))
    } else {
        match form_at(t, p) {
            Some(form) => special_form(t, p + 1, form),
            None => application(t, p),
        }
    }
}

/// The procedure application whose operator stands at `p`.
pub open spec fn application(t: Seq<SpannedView>, p: int) -> Parsed<ExprView>
    decreases left(t, p), 4nat,
{
    match forward(p, expr(t, p)) {
        Err(e) => Err(e),
        Ok((operator, q)) => match closed(
            t,
            exprs(t, q),
            "expected ) to close application"@,
        ) {
            Err(e) => Err(e),
            Ok((operands, r)) => Ok(
                (ExprView::Application { operator: Box::new(operator), operands }, r),
            ),
        },
    }
}

/// The special form `form` whose parts begin at `p`, behind the keyword.
pub open spec fn special_form(t: Seq<SpannedView>, p: int, form: Form) -> Parsed<ExprView>
    decreases left(t, p), 6nat,
{
    match form {
        Form::Quote => quoted(closed(t, datum(t, p), "expected ) to close quote"@)),
        Form::Lambda => lambda(t, p),
        Form::If => if_form(t, p),
        Form::SetBang => set_form(t, p),
        Form::Cond => match closed(t, cond_clauses(t, p), "expected ) to close cond"@) {
            Err(e) => Err(e),
            Ok((clauses, q)) => Ok((ExprView::Cond(clauses), q)),
        },
        Form::Case => case_form(t, p),
        Form::When => match tested_body(t, p) {
            Err(e) => Err(e),
            Ok(((test, body), q)) => Ok((ExprView::When { test: Box::new(test), body }, q)),
        },
        Form::Unless => match tested_body(t, p) {
            Err(e) => Err(e),
            Ok(((test, body), q)) => Ok((ExprView::Unless { test: Box::new(test), body }, q)),
        },
        Form::And => match closed(t, exprs(t, p), "expected ) to close and/or"@) {
            Err(e) => Err(e),
            Ok((es, q)) => Ok((ExprView::And(es), q)),
        },
        Form::Or => match closed(t, exprs(t, p), "expected ) to close and/or"@) {
            Err(e) => Err(e),
            Ok((es, q)) => Ok((ExprView::Or(es), q)),
        },
        Form::Let => let_form(t, p),
        Form::LetStar => match binding_form(t, p, "expected ) to close let*"@) {
            Err(e) => Err(e),
            Ok(((bindings, body), q)) => Ok((ExprView::LetStar { bindings, body }, q)),
        },
        Form::LetRec => match binding_form(t, p, "expected ) to close letrec"@) {
            Err(e) => Err(e),
            Ok(((bindings, body), q)) => Ok((ExprView::LetRec { bindings, body }, q)),
        },
        Form::LetRecStar => match binding_form(t, p, "expected ) to close letrec*"@) {
            Err(e) => Err(e),
            Ok(((bindings, body), q)) => Ok((ExprView::LetRecStar { bindings, body }, q)),
        },
        Form::LetValues => match mv_binding_form(t, p) {
            Err(e) => Err(e),
            Ok(((bindings, body), q)) => Ok((ExprView::LetValues { bindings, body }, q)),
        },
        Form::LetStarValues => match mv_binding_form(t, p) {
            Err(e) => Err(e),
            Ok(((bindings, body), q)) => Ok((ExprView::LetStarValues { bindings, body }, q)),
        },
        Form::Begin => match closed(t, exprs(t, p), "expected ) to close begin"@) {
            Err(e) => Err(e),
            Ok((es, q)) => Ok((ExprView::Begin(es), q)),
        },
    }
}

/// The parts of `lambda`.
pub open spec fn lambda(t: Seq<SpannedView>, p: int) -> Parsed<ExprView>
    decreases left(t, p), 4nat,
{
    match forward(p, formals(t, p)) {
        Err(e) => Err(e),
        Ok((formals, q)) => match closed(t, body(t, q), "expected ) to close lambda"@) {
            Err(e) => Err(e),
            Ok((body, r)) => Ok((ExprView::Lambda { formals, body }, r)),
        },
    }
}

/// The parts of `if`.
pub open spec fn if_form(t: Seq<SpannedView>, p: int) -> Parsed<ExprView>
    decreases left(t, p), 4nat,
{
    match forward(p, expr(t, p)) {
        Err(e) => Err(e),
        Ok((test, q)) => match forward(q, expr(t, q)) {
            Err(e) => Err(e),
            Ok((consequent, r)) => if tok(t, r) is RightParen {
                Ok(
                    (
                        ExprView::If {
                            test: Box::new(test),
                            consequent: Box::new(consequent),
                            alternate: None,
                        },
                        r + 1,
                    ),
                )
            } else {
                match closed(t, expr(t, r), "expected ) to close if"@) {
                    Err(e) => Err(e),
                    Ok((alternate, s)) => Ok(
                        (
                            ExprView::If {
                                test: Box::new(test),
                                consequent: Box::new(consequent),
                                alternate: Some(Box::new(alternate)),
                            },
                            s,
                        ),
                    ),
                }
            },
        },
    }
}

/// The parts of `set!`.
pub open spec fn set_form(t: Seq<SpannedView>, p: int) -> Parsed<ExprView>
    decreases left(t, p), 4nat,
{
    match ident(t, p) {
        Err(e) => Err(e),
        Ok((var, q)) => match closed(t, expr(t, p + 1), "expected ) to close set!"@) {
            Err(e) => Err(e),
            Ok((value, r)) => Ok((ExprView::SetBang { var, value: Box::new(value) }, r)),
        },
    }
}

/// The clauses of `cond` from `p` to the end of the list.
pub open spec fn cond_clauses(t: Seq<SpannedView>, p: int) -> Parsed<Seq<CondClauseView>>
    decreases left(t, p), 4nat,
{
    if at_close(t, p) {
        Ok((Seq::empty(), p))
    } else {
        match forward(p, cond_clause(t, p)) {
            Err(e) => Err(e),
            Ok((c, q)) => cons(c, cond_clauses(t, q)),
        }
    }
}

/// The clause of `cond` at `p`.
pub open spec fn cond_clause(t: Seq<SpannedView>, p: int) -> Parsed<CondClauseView>
    decreases left(t, p), 3nat,
{
    if !(tok(t, p) is LeftParen) {
        Err(fail(t, p, "expected ( to open cond clause"@))
    } else if is_symbol(t, p + 1, "else"@) {
        match closed(t, exprs(t, p + 2), "expected ) to close else clause"@) {
            Err(e) => Err(e),
            Ok((body, q)) => Ok((CondClauseView::Else { body }, q)),
        }
    } else {
        match forward(p + 1, expr(t, p + 1)) {
            Err(e) => Err(e),
            Ok((test, q)) => if is_symbol(t, q, "=>"@) {
                match closed(t, expr(t, q + 1), "expected ) to close => clause"@) {
                    Err(e) => Err(e),
                    Ok((recipient, r)) => Ok(
                        (
                            CondClauseView::Arrow {
                                test: Box::new(test),
                                recipient: Box::new(recipient),
                            },
                            r,
                        ),
                    ),
                }
            } else {
                match closed(t, exprs(t, q), "expected ) to close cond clause"@) {
                    Err(e) => Err(e),
                    Ok((body, r)) => Ok((CondClauseView::Clause { test: Box::new(test), body }, r)),
                }
            },
        }
    }
}

/// The parts of `case`.
pub open spec fn case_form(t: Seq<SpannedView>, p: int) -> Parsed<ExprView>
    decreases left(t, p), 5nat,
{
    match forward(p, expr(t, p)) {
        Err(e) => Err(e),
        Ok((key, q)) => match closed(t, case_clauses(t, q), "expected ) to close case"@) {
            Err(e) => Err(e),
            Ok((clauses, r)) => Ok((ExprView::Case { key: Box::new(key), clauses }, r)),
        },
    }
}

/// The clauses of `case` from `p` to the end of the list.
pub open spec fn case_clauses(t: Seq<SpannedView>, p: int) -> Parsed<Seq<CaseClauseView>>
    decreases left(t, p), 4nat,
{
    if at_close(t, p) {
        Ok((Seq::empty(), p))
    } else {
        match forward(p, case_clause(t, p)) {
            Err(e) => Err(e),
            Ok((c, q)) => cons(c, case_clauses(t, q)),
        }
    }
}

/// The clause of `case` at `p`.
pub open spec fn case_clause(t: Seq<SpannedView>, p: int) -> Parsed<CaseClauseView>
    decreases left(t, p), 3nat,
{
    if !(tok(t, p) is LeftParen) {
        Err(fail(t, p, "expected ( to open case clause"@))
    } else if is_symbol(t, p + 1, "else"@) {
        match closed(t, exprs(t, p + 2), "expected ) to close else clause"@) {
            Err(e) => Err(e),
            Ok((body, q)) => Ok((CaseClauseView::Else { body }, q)),
        }
    } else if !(tok(t, p + 1) is LeftParen) {
        Err(fail(t, p + 1, "expected ( to open datum list"@))
    } else {
        match forward(p + 2, closed(t, data(t, p + 2), "expected ) to close datum list"@)) {
            Err(e) => Err(e),
            Ok((data, q)) => match closed(t, exprs(t, q), "expected ) to close case clause"@) {
                Err(e) => Err(e),
                Ok((body, r)) => Ok((CaseClauseView::Matches { data, body }, r)),
            },
        }
    }
}

/// The parts of `when` and of `unless`: a test and expressions.
pub open spec fn tested_body(t: Seq<SpannedView>, p: int) -> Parsed<(ExprView, Seq<ExprView>)>
    decreases left(t, p), 4nat,
{
    match forward(p, expr(t, p)) {
        Err(e) => Err(e),
        Ok((test, q)) => match closed(t, exprs(t, q), "expected ) to close when/unless"@) {
            Err(e) => Err(e),
            Ok((body, r)) => Ok(((test, body), r)),
        },
    }
}

/// The name of a `let` at `p`, if one stands there.
pub open spec fn let_name(t: Seq<SpannedView>, p: int) -> Option<Seq<char>> {
    match tok(t, p) {
        TokenView::Symbol(name) => Some(name),
        _ => None,
    }
}

/// The parts of `let`, with or without a name.
pub open spec fn let_form(t: Seq<SpannedView>, p: int) -> Parsed<ExprView>
    decreases left(t, p), 5nat,
{
    let name = let_name(t, p);
    let start = if name is Some {
        p + 1
    } else {
        p
    };
    match binding_form(t, start, "expected ) to close let"@) {
        Err(e) => Err(e),
        Ok(((bindings, body), q)) => Ok((ExprView::Let { name, bindings, body }, q)),
    }
}

/// Bindings, a body, and the parenthesis that closes the form they belong to.
pub open spec fn binding_form(t: Seq<SpannedView>, p: int, message: Seq<char>) -> Parsed<
    (Seq<BindingView>, BodyView),
>
    decreases left(t, p), 4nat,
{
    match forward(p, bindings(t, p)) {
        Err(e) => Err(e),
        Ok((bindings, q)) => match closed(t, body(t, q), message) {
            Err(e) => Err(e),
            Ok((body, r)) => Ok(((bindings, body), r)),
        },
    }
}

/// The list of bindings at `p`.
pub open spec fn bindings(t: Seq<SpannedView>, p: int) -> Parsed<Seq<BindingView>>
    decreases left(t, p), 3nat,
{
    if !(tok(t, p) is LeftParen) {
        Err(fail(t, p, "expected ( to open bindings"@))
    } else {
        closed(t, binding_items(t, p + 1), "expected ) to close bindings"@)
    }
}

/// The bindings from `p` to the end of their list.
pub open spec fn binding_items(t: Seq<SpannedView>, p: int) -> Parsed<Seq<BindingView>>
    decreases left(t, p), 3nat,
{
    if at_close(t, p) {
        Ok((Seq::empty(), p))
    } else {
        match forward(p, binding(t, p)) {
            Err(e) => Err(e),
            Ok((b, q)) => cons(b, binding_items(t, q)),
        }
    }
}

/// The binding at `p`.
pub open spec fn binding(t: Seq<SpannedView>, p: int) -> Parsed<BindingView>
    decreases left(t, p), 2nat,
{
    if !(tok(t, p) is LeftParen) {
        Err(fail(t, p, "expected ( to open binding"@))
    } else {
        match ident(t, p + 1) {
            Err(e) => Err(e),
            Ok((name, q)) => match closed(t, expr(t, p + 2), "expected ) to close binding"@) {
                Err(e) => Err(e),
                Ok((init, r)) => Ok((BindingView { name, init: Box::new(init) }, r)),
            },
        }
    }
}

/// Multiple-values bindings, a body, and the parenthesis that closes the form
/// they belong to.
pub open spec fn mv_binding_form(t: Seq<SpannedView>, p: int) -> Parsed<
    (Seq<MvBindingView>, BodyView),
>
    decreases left(t, p), 4nat,
{
    match forward(p, mv_bindings(t, p)) {
        Err(e) => Err(e),
        Ok((bindings, q)) => match closed(t, body(t, q), "expected ) to close"@) {
            Err(e) => Err(e),
            Ok((body, r)) => Ok(((bindings, body), r)),
        },
    }
}

/// The list of multiple-values bindings at `p`.
pub open spec fn mv_bindings(t: Seq<SpannedView>, p: int) -> Parsed<Seq<MvBindingView>>
    decreases left(t, p), 3nat,
{
    if !(tok(t, p) is LeftParen) {
        Err(fail(t, p, "expected ( to open mv bindings"@))
    } else {
        closed(t, mv_binding_items(t, p + 1), "expected ) to close mv bindings"@)
    }
}

/// The multiple-values bindings from `p` to the end of their list.
pub open spec fn mv_binding_items(t: Seq<SpannedView>, p: int) -> Parsed<Seq<MvBindingView>>
    decreases left(t, p), 3nat,
{
    if at_close(t, p) {
        Ok((Seq::empty(), p))
    } else {
        match forward(p, mv_binding(t, p)) {
            Err(e) => Err(e),
            Ok((b, q)) => cons(b, mv_binding_items(t, q)),
        }
    }
}

/// The multiple-values binding at `p`.
pub open spec fn mv_binding(t: Seq<SpannedView>, p: int) -> Parsed<MvBindingView>
    decreases left(t, p), 2nat,
{
    if !(tok(t, p) is LeftParen) {
        Err(fail(t, p, "expected ( to open mv binding"@))
    } else {
        match forward(p + 1, formals(t, p + 1)) {
            Err(e) => Err(e),
            Ok((formals, q)) => match closed(t, expr(t, q), "expected ) to close mv binding"@) {
                Err(e) => Err(e),
                Ok((init, r)) => Ok((MvBindingView { formals, init: Box::new(init) }, r)),
            },
        }
    }
}

// ---- Bodies and definitions ----

/// The body at `p`: definitions, then at least one expression.
pub open spec fn body(t: Seq<SpannedView>, p: int) -> Parsed<BodyView>
    decreases left(t, p), 3nat,
{
    match onward(p, definitions(t, p)) {
        Err(e) => Err(e),
        Ok((definitions, q)) => match body_exprs(t, q) {
            Err(e) => Err(e),
            Ok((expressions, r)) => if expressions.len() == 0 {
                Err(fail(t, r, "body requires at least one expression"@))
            } else {
                Ok((BodyView { definitions, expressions }, r))
            },
        },
    }
}

/// Whether a parenthesized definition begins at `p`.
pub open spec fn at_definition(t: Seq<SpannedView>, p: int) -> bool {
    tok(t, p) is LeftParen && (is_symbol(t, p + 1, "define"@) || is_symbol(
        t,
        p + 1,
        "define-syntax"@,
    ))
}

/// The definitions from `p` on that stand before anything else, with datum
/// comments among them.
pub open spec fn definitions(t: Seq<SpannedView>, p: int) -> Parsed<Seq<DefinitionView>>
    decreases left(t, p), 2nat,
{
    if tok(t, p) is DatumComment {
        match forward(p, datum(t, p + 1)) {
            Err(e) => Err(e),
            Ok((_, q)) => definitions(t, q),
        }
    } else if at_definition(t, p) {
        match forward(p, closed(t, definition(t, p + 1), "expected ) to close definition"@)) {
            Err(e) => Err(e),
            Ok((d, q)) => cons(d, definitions(t, q)),
        }
    } else {
        Ok((Seq::empty(), p))
    }
}

/// The expressions of a body from `p` to its end, with datum comments among
/// them.
pub open spec fn body_exprs(t: Seq<SpannedView>, p: int) -> Parsed<Seq<ExprView>>
    decreases left(t, p), 2nat,
{
    if at_close(t, p) {
        Ok((Seq::empty(), p))
    } else if tok(t, p) is DatumComment {
        match forward(p, datum(t, p + 1)) {
            Err(e) => Err(e),
            Ok((_, q)) => body_exprs(t, q),
        }
    } else {
        match forward(p, expr(t, p)) {
            Err(e) => Err(e),
            Ok((e, q)) => cons(e, body_exprs(t, q)),
        }
    }
}

/// The definition whose keyword stands at `p`.
pub open spec fn definition(t: Seq<SpannedView>, p: int) -> Parsed<DefinitionView>
    decreases left(t, p), 5nat,
{
    if !(tok(t, p) is Symbol) {
        Err(fail(t, p, "expected definition keyword"@))
    } else if is_symbol(t, p, "define"@) {
        define_rest(t, p + 1)
    } else if is_symbol(t, p, "define-syntax"@) {
        match ident(t, p + 1) {
            Err(e) => Err(e),
            Ok((keyword, _)) => match expr(t, p + 2) {
                Err(e) => Err(e),
                Ok((init, q)) => Ok((DefinitionView::Syntax { keyword, init: Box::new(init) }, q)),
            },
        }
    } else {
        Err(fail(t, p + 1, "expected define or define-syntax"@))
    }
}

/// The parts of `define`: a variable with or without a value, or a function.
pub open spec fn define_rest(t: Seq<SpannedView>, p: int) -> Parsed<DefinitionView>
    decreases left(t, p), 4nat,
{
    if tok(t, p) is LeftParen {
        match ident(t, p + 1) {
            Err(e) => Err(e),
            Ok((name, _)) => match forward(
                p,
                closed(t, formals_rest(t, p + 2), "expected ) to close (define (name ...)"@),
            ) {
                Err(e) => Err(e),
                Ok((formals, q)) => match body(t, q) {
                    Err(e) => Err(e),
                    Ok((body, r)) => Ok((DefinitionView::Function { name, formals, body }, r)),
                },
            },
        }
    } else {
        match ident(t, p) {
            Err(e) => Err(e),
            Ok((name, _)) => if at_close(t, p + 1) {
                Ok((DefinitionView::Variable { name, init: None }, p + 1))
            } else {
                match expr(t, p + 1) {
                    Err(e) => Err(e),
                    Ok((init, q)) => Ok(
                        (DefinitionView::Variable { name, init: Some(Box::new(init)) }, q),
                    ),
                }
            },
        }
    }
}

// ---- Top level ----

/// The top-level form at `p`.
pub open spec fn top_form(t: Seq<SpannedView>, p: int) -> Parsed<TopLevelFormView>
    decreases left(t, p), 1nat,
{
    if tok(t, p) is DatumComment {
        match forward(p, datum(t, p + 1)) {
            Err(e) => Err(e),
            Ok((_, q)) => top_form(t, q),
        }
    } else if at_definition(t, p) {
        match closed(t, definition(t, p + 1), "expected ) to close definition"@) {
            Err(e) => Err(e),
            Ok((d, q)) => Ok((TopLevelFormView::Definition(d), q)),
        }
    } else if tok(t, p) is LeftParen && is_symbol(t, p + 1, "begin"@) {
        match closed(t, top_forms(t, p + 2), "expected ) to close begin"@) {
            Err(e) => Err(e),
            Ok((forms, q)) => Ok((TopLevelFormView::Begin(forms), q)),
        }
    } else {
        match expr(t, p) {
            Err(e) => Err(e),
            Ok((e, q)) => Ok((TopLevelFormView::Expr(e), q)),
        }
    }
}

/// The top-level forms from `p` to the end of the list.
pub open spec fn top_forms(t: Seq<SpannedView>, p: int) -> Parsed<Seq<TopLevelFormView>>
    decreases left(t, p), 2nat,
{
    if at_close(t, p) {
        Ok((Seq::empty(), p))
    } else {
        match forward(p, top_form(t, p)) {
            Err(e) => Err(e),
            Ok((f, q)) => cons(f, top_forms(t, q)),
        }
    }
}

/// The top-level forms from `p` to the end of input.
pub open spec fn program_from(t: Seq<SpannedView>, p: int) -> Parsed<Seq<TopLevelFormView>>
    decreases left(t, p),
{
    if tok(t, p) is Eof {
        Ok((Seq::empty(), p))
    } else {
        match forward(p, top_form(t, p)) {
            Err(e) => Err(e),
            Ok((f, q)) => cons(f, program_from(t, q)),
        }
    }
}

// ---- Whole sources ----

/// The tokens without the datum comments: each `#;` is taken out together with
/// the datum behind it, the innermost first. A `#;` that no datum follows stays
/// where it is, and reading it gives the error in what follows it.
pub open spec fn uncommented(t: Seq<SpannedView>) -> Seq<SpannedView>
    decreases t.len(),
{
    if t.len() == 0 {
        t
    } else {
        let rest = uncommented(t.subrange(1, t.len() as int));
        match datum(rest, 0) {
            Ok((_, q)) if t[0].token is DatumComment => rest.subrange(q, rest.len() as int),
            _ => seq![t[0]] + rest,
        }
    }
}

/// The program that a source is, or the error with which it is rejected.
pub open spec fn program(b: Seq<u8>) -> Result<Seq<TopLevelFormView>, ErrorView> {
    match lexical::tokens(b) {
        Err(e) => Err(e),
        Ok(t) => match program_from(uncommented(t), 0) {
            Err(e) => Err(e),
            Ok((forms, _)) => Ok(forms),
        },
    }
}

/// The single expression that a source is, or the error with which it is
/// rejected.
pub open spec fn expression(b: Seq<u8>) -> Result<ExprView, ErrorView> {
    match lexical::tokens(b) {
        Err(e) => Err(e),
        Ok(t) => {
            let u = uncommented(t);
            match expr(u, 0) {
                Err(e) => Err(e),
                Ok((e, q)) => if tok(u, q) is Eof {
                    Ok(e)
                } else {
                    Err(fail(u, q, "unexpected trailing input"@))
                },
            }
        },
    }
}

} // verus!
