//! Parser for R6RS Scheme.
//!
//! Consumes the flat token stream produced by [`crate::lexer::tokenize`]
//! and builds the surface-syntax [`crate::ast::Expr`] tree. Raw data are read
//! by the *datum* layer (lists, vectors, bytevectors, quote abbreviations);
//! the expression layer on top of it recognizes the special syntactic
//! forms (`lambda`, `if`, `let`, ...). What is not recognized as a
//! special form becomes a variable reference or a procedure application.
//!
//! The parser is split this way so that `quote` and `case` clauses can
//! reuse the datum layer directly. Datum comments are taken out of the tokens
//! before anything else is read. The grammar itself is stated in
//! [`crate::syntax`].

use crate::ast::{
    Binding, Body, CaseClause, CondClause, Datum, Definition, Expr, Formals, Ident, MvBinding,
    Number, Program, TopLevelForm,
};
use crate::comments;
use crate::laws;
use crate::layout;
use crate::lexer::{tokenize, LexError, Span, SpannedToken, Token};
use crate::lexical;
use crate::lexical::{ErrorView, SpannedView};
use crate::model;
use crate::model::{ExprView, TopLevelFormView};
use crate::syntax;
use crate::syntax::{Form, Parsed};
use crate::text;
use vstd::prelude::*;
use vstd::string::StringSliceAdditionalSpecFns;

verus! {

/// A parsing error.
#[derive(Debug, PartialEq)]
pub struct ParseError {
    pub message: String,
    pub span: Span,
}

impl Clone for ParseError {
    fn clone(&self) -> (copy: Self)
        ensures
            copy == *self,
    {
        ParseError { message: self.message.clone(), span: self.span }
    }
}

impl ParseError {
    /// The error as one line of text.
    pub fn to_string(&self) -> (shown: String)
        ensures
            shown@ == "parse error"@ + text::located(
                self.span.line,
                self.span.column,
                self.message@,
            ),
    {
        let mut shown = "parse error".to_string();
        text::push_located(&mut shown, self.span.line, self.span.column, &self.message);
        shown
    }
}

impl From<LexError> for ParseError {
    fn from(e: LexError) -> (r: Self) {
        ParseError { message: e.message, span: e.span }
    }
}

impl vstd::std_specs::convert::FromSpecImpl<LexError> for ParseError {
    open spec fn obeys_from_spec() -> bool {
        true
    }

    open spec fn from_spec(e: LexError) -> Self {
        ParseError { message: e.message, span: e.span }
    }
}

/// The model of a [`ParseError`].
pub open spec fn error_view(e: ParseError) -> ErrorView {
    ErrorView { message: e.message@, span: e.span }
}

/// The model of what [`parse_program`] returns.
pub open spec fn program_result(r: Result<Program, ParseError>) -> Result<
    Seq<TopLevelFormView>,
    ErrorView,
> {
    match r {
        Ok(program) => Ok(model::program_view(program)),
        Err(e) => Err(error_view(e)),
    }
}

/// The model of what [`parse_expr`] returns.
pub open spec fn expr_result(r: Result<Expr, ParseError>) -> Result<ExprView, ErrorView> {
    match r {
        Ok(e) => Ok(model::expr_view(e)),
        Err(e) => Err(error_view(e)),
    }
}

/// What a reading function has read, when `value` is the model of what it
/// returned and `pos` the index of the token it has come to.
pub open spec fn outcome<T, V>(r: Result<T, ParseError>, value: V, pos: usize) -> Parsed<V> {
    match r {
        Ok(_) => Ok((value, pos as int)),
        Err(e) => Err(error_view(e)),
    }
}

/// The special form that a keyword introduces.
fn form_named(name: &str) -> (form: Option<Form>)
    ensures
        form == syntax::form_named(name@),
{
    if text::same_text(name, "quote") {
        Some(Form::Quote)
    } else if text::same_text(name, "lambda") {
        Some(Form::Lambda)
    } else if text::same_text(name, "if") {
        Some(Form::If)
    } else if text::same_text(name, "set!") {
        Some(Form::SetBang)
    } else if text::same_text(name, "cond") {
        Some(Form::Cond)
    } else if text::same_text(name, "case") {
        Some(Form::Case)
    } else if text::same_text(name, "when") {
        Some(Form::When)
    } else if text::same_text(name, "unless") {
        Some(Form::Unless)
    } else if text::same_text(name, "and") {
        Some(Form::And)
    } else if text::same_text(name, "or") {
        Some(Form::Or)
    } else if text::same_text(name, "let") {
        Some(Form::Let)
    } else if text::same_text(name, "let*") {
        Some(Form::LetStar)
    } else if text::same_text(name, "letrec") {
        Some(Form::LetRec)
    } else if text::same_text(name, "letrec*") {
        Some(Form::LetRecStar)
    } else if text::same_text(name, "let-values") {
        Some(Form::LetValues)
    } else if text::same_text(name, "let*-values") {
        Some(Form::LetStarValues)
    } else if text::same_text(name, "begin") {
        Some(Form::Begin)
    } else {
        None
    }
}

/// The byte that a datum stands for, if it does for one.
fn octet(d: &Datum) -> (r: Option<u8>)
    ensures
        r == syntax::octet(model::datum_view(*d)),
{
    match d {
        Datum::Number(Number::Fixnum(n)) => if 0 <= *n && *n <= 255 {
            Some(*n as u8)
        } else {
            None
        },
        _ => None,
    }
}

/// Convert a quoted datum into an expression. Used for literals and the
/// quasiquote family, where a datum must be reified as an `Expr::Literal`.
fn datum_to_expr(d: Datum) -> (e: Expr)
    ensures
        model::expr_view(e) == ExprView::Literal(model::datum_view(d)),
{
    Expr::Literal(d)
}

/// A place in a sequence of tokens.
struct Parser {
    toks: Vec<SpannedToken>,
    pos: usize,
}

impl Parser {
    /// The tokens end in [`Token::Eof`], and the place is at one of them.
    spec fn well_formed(self) -> bool {
        self.pos < self.toks.len() && self.toks@.last().token is Eof
    }

    spec fn tokens(self) -> Seq<SpannedView> {
        lexical::spanned_views(self.toks@)
    }

    /// Whether this is the place `before`, or one further on.
    spec fn follows(self, before: Self) -> bool {
        self.well_formed() && self.toks@ == before.toks@ && self.pos >= before.pos
    }

    spec fn left(self) -> int {
        self.toks@.len() - self.pos
    }

    /// A parser at the first token, once the datum comments are taken out.
    fn new(toks: Vec<SpannedToken>) -> (p: Self)
        requires
            toks@.len() > 0,
            toks@.last().token is Eof,
        ensures
            p.well_formed(),
            p.tokens() == syntax::uncommented(lexical::spanned_views(toks@)),
            p.pos == 0,
    {
        let ghost t = lexical::spanned_views(toks@);
        let ghost n = t.len() as int;
        let mut i: usize = toks.len() - 1;
        let mut p = Parser { toks, pos: i };
        proof {
            comments::lemma_end_only(t.subrange(i as int, n));
            assert(p.tokens().subrange(i as int, n) =~= t.subrange(i as int, n));
        }
        // What stands from `p.pos` on is what is left of the tokens from `i` on.
        while i > 0
            invariant
                p.well_formed(),
                i <= p.pos,
                p.toks@.len() == n,
                n == t.len(),
                forall|k: int| 0 <= k < i ==> #[trigger] p.tokens()[k] == t[k],
                p.tokens().subrange(p.pos as int, n) == syntax::uncommented(
                    t.subrange(i as int, n),
                ),
            decreases i,
        {
            i -= 1;
            let at = p.pos;
            let ghost rest = p.tokens().subrange(at as int, n);
            proof {
                assert(p.tokens()[i as int] == t[i as int]);
                comments::lemma_uncommented_from(t, i as int);
                layout::lemma_tail(p.tokens(), at as int);
                layout::same_datum(rest, p.tokens(), at as int, 0, at as int);
            }
            let mut dropped = false;
            if matches!(p.toks[i].token, Token::DatumComment) {
                match p.parse_datum() {
                    Ok(_) => {
                        dropped = true;
                        assert(p.tokens().subrange(p.pos as int, n) =~= rest.subrange(
                            p.pos - at,
                            rest.len() as int,
                        ));
                    },
                    Err(_) => {
                        p.pos = at;
                    },
                }
            }
            if !dropped {
                let token = p.toks[i].clone();
                let ghost before = p.tokens();
                p.toks.set(at - 1, token);
                p.pos = at - 1;
                proof {
                    assert(p.tokens() =~= before.update(at - 1, before[i as int]));
                    assert(p.tokens().subrange(at - 1, n) =~= seq![t[i as int]] + rest);
                }
            }
        }
        assert(t.subrange(0, n) =~= t);
        let at = p.pos;
        let ghost all = p.toks@;
        let mut all_toks = p.toks;
        let left = all_toks.split_off(at);
        assert(lexical::spanned_views(left@) =~= lexical::spanned_views(all).subrange(
            at as int,
            n,
        ));
        Parser { toks: left, pos: 0 }
    }

    fn peek(&self) -> (token: &Token)
        requires
            self.well_formed(),
        ensures
            lexical::token_view(*token) == syntax::tok(self.tokens(), self.pos as int),
    {
        &self.toks[self.pos].token
    }

    fn peek_span(&self) -> (span: Span)
        requires
            self.well_formed(),
        ensures
            span == self.tokens()[self.pos as int].span,
    {
        self.toks[self.pos].span
    }

    fn at_end(&self) -> (r: bool)
        requires
            self.well_formed(),
        ensures
            r == (syntax::tok(self.tokens(), self.pos as int) is Eof),
    {
        matches!(self.peek(), Token::Eof)
    }

    /// Whether a list ends here.
    fn at_close(&self) -> (r: bool)
        requires
            self.well_formed(),
        ensures
            r == syntax::at_close(self.tokens(), self.pos as int),
    {
        matches!(self.peek(), Token::RightParen | Token::Eof)
    }

    /// Whether the symbol `name` stands here.
    fn at_symbol(&self, name: &str) -> (r: bool)
        requires
            self.well_formed(),
        ensures
            r == syntax::is_symbol(self.tokens(), self.pos as int, name@),
    {
        match self.peek() {
            Token::Symbol(s) => text::same_text(s.as_str(), name),
            _ => false,
        }
    }

    /// Whether the symbol `name` stands behind a parenthesis that opens here.
    fn at_open_symbol(&self, name: &str) -> (r: bool)
        requires
            self.well_formed(),
        ensures
            r == (syntax::tok(self.tokens(), self.pos as int) is LeftParen && syntax::is_symbol(
                self.tokens(),
                self.pos + 1,
                name@,
            )),
    {
        if !matches!(self.peek(), Token::LeftParen) {
            return false;
        }
        match &self.toks[self.pos + 1].token {
            Token::Symbol(s) => text::same_text(s.as_str(), name),
            _ => false,
        }
    }

    /// Whether a parenthesized definition begins here.
    fn at_definition(&self) -> (r: bool)
        requires
            self.well_formed(),
        ensures
            r == syntax::at_definition(self.tokens(), self.pos as int),
    {
        self.at_open_symbol("define") || self.at_open_symbol("define-syntax")
    }

    fn advance(&mut self) -> (token: Token)
        requires
            old(self).well_formed(),
        ensures
            final(self).follows(*old(self)),
            lexical::token_view(token) == syntax::tok(old(self).tokens(), old(self).pos as int),
            final(self).pos == old(self).pos + (if token is Eof {
                0int
            } else {
                1
            }),
    {
        let token = self.toks[self.pos].token.clone();
        if !matches!(token, Token::Eof) {
            self.pos += 1;
        }
        token
    }

    fn error(&self, message: &str) -> (e: ParseError)
        requires
            self.well_formed(),
        ensures
            error_view(e) == syntax::fail(self.tokens(), self.pos as int, message@),
    {
        ParseError { message: message.to_string(), span: self.peek_span() }
    }

    /// Consumes the opening parenthesis that has to stand here.
    fn expect_open(&mut self, message: &str) -> (r: Result<(), ParseError>)
        requires
            old(self).well_formed(),
        ensures
            final(self).follows(*old(self)),
            r is Ok == (syntax::tok(old(self).tokens(), old(self).pos as int) is LeftParen),
            r is Ok ==> final(self).pos == old(self).pos + 1,
            r is Err ==> final(self).pos == old(self).pos,
            r matches Err(e) ==> error_view(e) == syntax::fail(
                old(self).tokens(),
                old(self).pos as int,
                message@,
            ),
    {
        if matches!(self.peek(), Token::LeftParen) {
            self.advance();
            Ok(())
        } else {
            Err(self.error(message))
        }
    }

    /// Consumes the closing parenthesis that has to stand here.
    fn expect_close(&mut self, message: &str) -> (r: Result<(), ParseError>)
        requires
            old(self).well_formed(),
        ensures
            final(self).follows(*old(self)),
            r is Ok == (syntax::tok(old(self).tokens(), old(self).pos as int) is RightParen),
            r is Ok ==> final(self).pos == old(self).pos + 1,
            r is Err ==> final(self).pos == old(self).pos,
            r matches Err(e) ==> error_view(e) == syntax::fail(
                old(self).tokens(),
                old(self).pos as int,
                message@,
            ),
    {
        if matches!(self.peek(), Token::RightParen) {
            self.advance();
            Ok(())
        } else {
            Err(self.error(message))
        }
    }

    // ---- Top level ----

    fn parse_top_level_form(&mut self) -> (r: Result<TopLevelForm, ParseError>)
        requires
            old(self).well_formed(),
        ensures
            final(self).follows(*old(self)),
            outcome(r, model::form_view(r->Ok_0), final(self).pos) == syntax::top_form(
                old(self).tokens(),
                old(self).pos as int,
            ),
            r is Ok ==> final(self).pos > old(self).pos,
        decreases old(self).left(), 1nat,
    {
        let ghost t = self.tokens();
        let ghost start = self.pos as int;
        while matches!(self.peek(), Token::DatumComment)
            invariant
                self.follows(*old(self)),
                t == old(self).tokens(),
                start == old(self).pos,
                syntax::top_form(t, self.pos as int) == syntax::top_form(t, start),
            decreases self.left(),
        {
            match self.skip_datum() {
                Ok(_) => {},
                Err(e) => return Err(e),
            }
        }
        if self.at_definition() {
            self.advance();
            let definition = match self.parse_definition() {
                Ok(definition) => definition,
                Err(e) => return Err(e),
            };
            match self.expect_close("expected ) to close definition") {
                Ok(_) => Ok(TopLevelForm::Definition(definition)),
                Err(e) => Err(e),
            }
        } else if self.at_open_symbol("begin") {
            self.advance();
            self.advance();
            let forms = match self.parse_top_level_forms() {
                Ok(forms) => forms,
                Err(e) => return Err(e),
            };
            match self.expect_close("expected ) to close begin") {
                Ok(_) => Ok(TopLevelForm::Begin(forms)),
                Err(e) => Err(e),
            }
        } else {
            match self.parse_expr() {
                Ok(e) => Ok(TopLevelForm::Expr(e)),
                Err(e) => Err(e),
            }
        }
    }

    /// Parse top-level forms up to the end of the list.
    fn parse_top_level_forms(&mut self) -> (r: Result<Vec<TopLevelForm>, ParseError>)
        requires
            old(self).well_formed(),
        ensures
            final(self).follows(*old(self)),
            outcome(r, model::forms_view(r->Ok_0@), final(self).pos) == syntax::top_forms(
                old(self).tokens(),
                old(self).pos as int,
            ),
        decreases old(self).left(), 2nat,
    {
        let ghost t = self.tokens();
        let ghost start = self.pos as int;
        let mut items: Vec<TopLevelForm> = Vec::new();
        proof {
            syntax::lemma_prepend_nothing(syntax::top_forms(t, start));
            assert(model::forms_view(items@) =~= Seq::empty());
        }
        while !self.at_close()
            invariant
                self.follows(*old(self)),
                t == old(self).tokens(),
                start == old(self).pos,
                syntax::prepend(model::forms_view(items@), syntax::top_forms(t, self.pos as int))
                    == syntax::top_forms(t, start),
            decreases self.left(),
        {
            let ghost done = items@;
            match self.parse_top_level_form() {
                Ok(item) => {
                    items.push(item);
                    proof {
                        assert(model::forms_view(items@) =~= model::forms_view(done).push(
                            model::form_view(item),
                        ));
                        syntax::lemma_prepend(
                            model::forms_view(done),
                            model::form_view(item),
                            syntax::top_forms(t, self.pos as int),
                        );
                    }
                },
                Err(e) => return Err(e),
            }
        }
        assert(model::forms_view(items@) + Seq::empty() =~= model::forms_view(items@));
        Ok(items)
    }

    /// Parse top-level forms up to the end of input.
    fn parse_program_forms(&mut self) -> (r: Result<Vec<TopLevelForm>, ParseError>)
        requires
            old(self).well_formed(),
        ensures
            final(self).follows(*old(self)),
            outcome(r, model::forms_view(r->Ok_0@), final(self).pos) == syntax::program_from(
                old(self).tokens(),
                old(self).pos as int,
            ),
    {
        let ghost t = self.tokens();
        let ghost start = self.pos as int;
        let mut items: Vec<TopLevelForm> = Vec::new();
        proof {
            syntax::lemma_prepend_nothing(syntax::program_from(t, start));
            assert(model::forms_view(items@) =~= Seq::empty());
        }
        while !self.at_end()
            invariant
                self.follows(*old(self)),
                t == old(self).tokens(),
                start == old(self).pos,
                syntax::prepend(model::forms_view(items@), syntax::program_from(t, self.pos as int))
                    == syntax::program_from(t, start),
            decreases self.left(),
        {
            let ghost done = items@;
            match self.parse_top_level_form() {
                Ok(item) => {
                    items.push(item);
                    proof {
                        assert(model::forms_view(items@) =~= model::forms_view(done).push(
                            model::form_view(item),
                        ));
                        syntax::lemma_prepend(
                            model::forms_view(done),
                            model::form_view(item),
                            syntax::program_from(t, self.pos as int),
                        );
                    }
                },
                Err(e) => return Err(e),
            }
        }
        assert(model::forms_view(items@) + Seq::empty() =~= model::forms_view(items@));
        Ok(items)
    }

    // ---- Definitions ----

    fn parse_definition(&mut self) -> (r: Result<Definition, ParseError>)
        requires
            old(self).well_formed(),
        ensures
            final(self).follows(*old(self)),
            outcome(r, model::definition_view(r->Ok_0), final(self).pos) == syntax::definition(
                old(self).tokens(),
                old(self).pos as int,
            ),
            r is Ok ==> final(self).pos > old(self).pos,
        decreases old(self).left(), 5nat,
    {
        if !matches!(self.peek(), Token::Symbol(_)) {
            return Err(self.error("expected definition keyword"));
        }
        if self.at_symbol("define") {
            self.advance();
            self.parse_define_rest()
        } else if self.at_symbol("define-syntax") {
            self.advance();
            let keyword = match self.parse_ident() {
                Ok(keyword) => keyword,
                Err(e) => return Err(e),
            };
            match self.parse_expr() {
                Ok(init) => Ok(Definition::Syntax { keyword, init: Box::new(init) }),
                Err(e) => Err(e),
            }
        } else {
            self.advance();
            Err(self.error("expected define or define-syntax"))
        }
    }

    /// Parse what follows the keyword: `<var> <expr>?` for a variable, or
    /// `(<var> . <formals>) <body>` for a function.
    fn parse_define_rest(&mut self) -> (r: Result<Definition, ParseError>)
        requires
            old(self).well_formed(),
        ensures
            final(self).follows(*old(self)),
            outcome(r, model::definition_view(r->Ok_0), final(self).pos) == syntax::define_rest(
                old(self).tokens(),
                old(self).pos as int,
            ),
            r is Ok ==> final(self).pos > old(self).pos,
        decreases old(self).left(), 4nat,
    {
        if matches!(self.peek(), Token::LeftParen) {
            self.advance();
            let name = match self.parse_ident() {
                Ok(name) => name,
                Err(e) => return Err(e),
            };
            let formals = match self.parse_formals_rest() {
                Ok(formals) => formals,
                Err(e) => return Err(e),
            };
            match self.expect_close("expected ) to close (define (name ...)") {
                Ok(_) => {},
                Err(e) => return Err(e),
            }
            match self.parse_body() {
                Ok(body) => Ok(Definition::Function { name, formals, body }),
                Err(e) => Err(e),
            }
        } else {
            let name = match self.parse_ident() {
                Ok(name) => name,
                Err(e) => return Err(e),
            };
            if self.at_close() {
                let init: Option<Box<Expr>> = None;
                assert(model::optional_expr_view(init) is None);
                Ok(Definition::Variable { name, init })
            } else {
                let e = match self.parse_expr() {
                    Ok(e) => e,
                    Err(e) => return Err(e),
                };
                let init = Some(Box::new(e));
                assert(model::optional_expr_view(init) == Some(Box::new(model::expr_view(e))));
                Ok(Definition::Variable { name, init })
            }
        }
    }

    // ---- Body ----

    /// Parse a `<body>`: zero or more internal definitions followed by one
    /// or more expressions. Assumes the caller will consume the closing `)`.
    fn parse_body(&mut self) -> (r: Result<Body, ParseError>)
        requires
            old(self).well_formed(),
        ensures
            final(self).follows(*old(self)),
            outcome(r, model::body_view(r->Ok_0), final(self).pos) == syntax::body(
                old(self).tokens(),
                old(self).pos as int,
            ),
            syntax::at_close(old(self).tokens(), old(self).pos as int) ==> {
                &&& r is Err
                &&& final(self).pos == old(self).pos
            },
        decreases old(self).left(), 3nat,
    {
        let definitions = match self.parse_definitions() {
            Ok(definitions) => definitions,
            Err(e) => return Err(e),
        };
        let expressions = match self.parse_body_exprs() {
            Ok(expressions) => expressions,
            Err(e) => return Err(e),
        };
        if expressions.len() == 0 {
            return Err(self.error("body requires at least one expression"));
        }
        Ok(Body { definitions, expressions })
    }

    /// Parse the parenthesized definitions that stand before anything else.
    fn parse_definitions(&mut self) -> (r: Result<Vec<Definition>, ParseError>)
        requires
            old(self).well_formed(),
        ensures
            final(self).follows(*old(self)),
            outcome(r, model::definitions_view(r->Ok_0@), final(self).pos) == syntax::definitions(
                old(self).tokens(),
                old(self).pos as int,
            ),
        decreases old(self).left(), 2nat,
    {
        let ghost t = self.tokens();
        let ghost start = self.pos as int;
        let mut items: Vec<Definition> = Vec::new();
        proof {
            syntax::lemma_prepend_nothing(syntax::definitions(t, start));
            assert(model::definitions_view(items@) =~= Seq::empty());
        }
        while matches!(self.peek(), Token::DatumComment) || self.at_definition()
            invariant
                self.follows(*old(self)),
                t == old(self).tokens(),
                start == old(self).pos,
                syntax::prepend(
                    model::definitions_view(items@),
                    syntax::definitions(t, self.pos as int),
                ) == syntax::definitions(t, start),
            decreases self.left(),
        {
            if matches!(self.peek(), Token::DatumComment) {
                match self.skip_datum() {
                    Ok(_) => continue,
                    Err(e) => return Err(e),
                }
            }
            let ghost done = items@;
            self.advance();
            match self.parse_definition() {
                Ok(item) => {
                    match self.expect_close("expected ) to close definition") {
                        Ok(_) => {},
                        Err(e) => return Err(e),
                    }
                    items.push(item);
                    proof {
                        assert(model::definitions_view(items@) =~= model::definitions_view(
                            done,
                        ).push(model::definition_view(item)));
                        syntax::lemma_prepend(
                            model::definitions_view(done),
                            model::definition_view(item),
                            syntax::definitions(t, self.pos as int),
                        );
                    }
                },
                Err(e) => return Err(e),
            }
        }
        assert(model::definitions_view(items@) + Seq::empty() =~= model::definitions_view(items@));
        Ok(items)
    }

    /// Parse expressions up to the end of the list, with datum comments among
    /// them.
    fn parse_body_exprs(&mut self) -> (r: Result<Vec<Expr>, ParseError>)
        requires
            old(self).well_formed(),
        ensures
            final(self).follows(*old(self)),
            outcome(r, model::exprs_view(r->Ok_0@), final(self).pos) == syntax::body_exprs(
                old(self).tokens(),
                old(self).pos as int,
            ),
        decreases old(self).left(), 2nat,
    {
        let ghost t = self.tokens();
        let ghost start = self.pos as int;
        let mut items: Vec<Expr> = Vec::new();
        proof {
            syntax::lemma_prepend_nothing(syntax::body_exprs(t, start));
            assert(model::exprs_view(items@) =~= Seq::empty());
        }
        while !self.at_close()
            invariant
                self.follows(*old(self)),
                t == old(self).tokens(),
                start == old(self).pos,
                syntax::prepend(model::exprs_view(items@), syntax::body_exprs(t, self.pos as int))
                    == syntax::body_exprs(t, start),
            decreases self.left(),
        {
            if matches!(self.peek(), Token::DatumComment) {
                match self.skip_datum() {
                    Ok(_) => continue,
                    Err(e) => return Err(e),
                }
            }
            let ghost done = items@;
            match self.parse_expr() {
                Ok(item) => {
                    items.push(item);
                    proof {
                        assert(model::exprs_view(items@) =~= model::exprs_view(done).push(
                            model::expr_view(item),
                        ));
                        syntax::lemma_prepend(
                            model::exprs_view(done),
                            model::expr_view(item),
                            syntax::body_exprs(t, self.pos as int),
                        );
                    }
                },
                Err(e) => return Err(e),
            }
        }
        assert(model::exprs_view(items@) + Seq::empty() =~= model::exprs_view(items@));
        Ok(items)
    }

    // ---- Expressions ----

    fn parse_ident(&mut self) -> (r: Result<Ident, ParseError>)
        requires
            old(self).well_formed(),
        ensures
            final(self).follows(*old(self)),
            outcome(r, r->Ok_0.0@, final(self).pos) == syntax::ident(
                old(self).tokens(),
                old(self).pos as int,
            ),
    {
        let token = self.peek().clone();
        match token {
            Token::Symbol(s) => {
                self.advance();
                Ok(Ident(s))
            },
            _ => Err(self.error("expected identifier")),
        }
    }

    /// Parse a formals spec: either a single identifier (fully variadic) or
    /// a parenthesized list possibly with a dotted rest.
    fn parse_formals(&mut self) -> (r: Result<Formals, ParseError>)
        requires
            old(self).well_formed(),
        ensures
            final(self).follows(*old(self)),
            outcome(r, model::formals_view(r->Ok_0), final(self).pos) == syntax::formals(
                old(self).tokens(),
                old(self).pos as int,
            ),
            r is Ok ==> final(self).pos > old(self).pos,
    {
        let token = self.peek().clone();
        match token {
            Token::Symbol(s) => {
                self.advance();
                let formals = Formals { fixed: Vec::new(), rest: Some(Ident(s)) };
                assert(model::formals_view(formals).fixed =~= Seq::empty());
                Ok(formals)
            },
            Token::LeftParen => {
                self.advance();
                let formals = match self.parse_formals_rest() {
                    Ok(formals) => formals,
                    Err(e) => return Err(e),
                };
                match self.expect_close("expected ) to close formals") {
                    Ok(_) => Ok(formals),
                    Err(e) => Err(e),
                }
            },
            _ => Err(self.error("expected formals")),
        }
    }

    /// Parse the fixed/rest formals of a list, as after the function name in
    /// `(define (name . <formals>) ...)`. The closing `)` is handled by the
    /// caller.
    fn parse_formals_rest(&mut self) -> (r: Result<Formals, ParseError>)
        requires
            old(self).well_formed(),
        ensures
            final(self).follows(*old(self)),
            outcome(r, model::formals_view(r->Ok_0), final(self).pos) == syntax::formals_rest(
                old(self).tokens(),
                old(self).pos as int,
            ),
    {
        let ghost t = self.tokens();
        let ghost start = self.pos as int;
        let mut fixed: Vec<Ident> = Vec::new();
        proof {
            if let Ok((f, q)) = syntax::formals_rest(t, start) {
                assert(model::idents_view(fixed@) + f.fixed =~= f.fixed);
            }
        }
        while !self.at_close()
            invariant
                self.follows(*old(self)),
                t == old(self).tokens(),
                start == old(self).pos,
                syntax::prepend_formals(
                    model::idents_view(fixed@),
                    syntax::formals_rest(t, self.pos as int),
                ) == syntax::formals_rest(t, start),
            decreases self.left(),
        {
            if matches!(self.peek(), Token::Dot) {
                self.advance();
                match self.parse_ident() {
                    Ok(name) => {
                        let formals = Formals { fixed, rest: Some(name) };
                        assert(model::formals_view(formals).fixed + Seq::empty()
                            =~= model::formals_view(formals).fixed);
                        return Ok(formals);
                    },
                    Err(e) => return Err(e),
                }
            }
            let ghost done = fixed@;
            let ghost p = self.pos as int;
            match self.parse_ident() {
                Ok(name) => {
                    fixed.push(name);
                    proof {
                        assert(model::idents_view(fixed@) =~= model::idents_view(done).push(
                            name.0@,
                        ));
                        if let Ok((f, q)) = syntax::formals_rest(t, p + 1) {
                            assert(model::idents_view(done) + (seq![name.0@] + f.fixed)
                                =~= model::idents_view(fixed@) + f.fixed);
                        }
                    }
                },
                Err(e) => return Err(e),
            }
        }
        let formals = Formals { fixed, rest: None };
        assert(model::formals_view(formals).fixed + Seq::empty() =~= model::formals_view(
            formals,
        ).fixed);
        Ok(formals)
    }

    fn parse_expr(&mut self) -> (r: Result<Expr, ParseError>)
        requires
            old(self).well_formed(),
        ensures
            final(self).follows(*old(self)),
            outcome(r, model::expr_view(r->Ok_0), final(self).pos) == syntax::expr(
                old(self).tokens(),
                old(self).pos as int,
            ),
            r is Ok ==> final(self).pos > old(self).pos,
            (syntax::at_close(old(self).tokens(), old(self).pos as int) || syntax::tok(
                old(self).tokens(),
                old(self).pos as int,
            ) is Dot) ==> {
                &&& r is Err
                &&& r->Err_0.span == old(self).tokens()[old(self).pos as int].span
                &&& final(self).pos == old(self).pos
            },
        decreases old(self).left(), 1nat,
    {
        let ghost t = self.tokens();
        let ghost start = self.pos as int;
        while matches!(self.peek(), Token::DatumComment)
            invariant
                self.follows(*old(self)),
                t == old(self).tokens(),
                start == old(self).pos,
                syntax::expr(t, self.pos as int) == syntax::expr(t, start),
                !(syntax::tok(t, start) is DatumComment) ==> self.pos == start,
            decreases self.left(),
        {
            match self.skip_datum() {
                Ok(_) => {},
                Err(e) => return Err(e),
            }
        }
        let token = self.peek().clone();
        match token {
            Token::Quote => {
                self.advance();
                match self.parse_datum() {
                    Ok(d) => Ok(Expr::Quote(d)),
                    Err(e) => Err(e),
                }
            },
            Token::QuasiQuote => self.parse_quasi("quasiquote"),
            Token::Unquote => self.parse_quasi("unquote"),
            Token::UnquoteSplicing => self.parse_quasi("unquote-splicing"),
            Token::LeftParen => {
                self.advance();
                self.parse_list_expr()
            },
            Token::VectorPrefix | Token::ByteVectorPrefix => match self.parse_datum() {
                Ok(d) => Ok(datum_to_expr(d)),
                Err(e) => Err(e),
            },
            Token::Boolean(b) => {
                self.advance();
                Ok(datum_to_expr(Datum::Boolean(b)))
            },
            Token::Character(c) => {
                self.advance();
                Ok(datum_to_expr(Datum::Character(c)))
            },
            Token::Number(n) => {
                self.advance();
                Ok(datum_to_expr(Datum::Number(n)))
            },
            Token::String(s) => {
                self.advance();
                Ok(datum_to_expr(Datum::String(s)))
            },
            Token::Symbol(s) => {
                self.advance();
                Ok(Expr::Var(Ident(s)))
            },
            // The loop leaves no datum comment here.
            Token::Eof | Token::DatumComment => Err(self.error("unexpected end of input")),
            Token::RightParen => Err(self.error("unexpected )")),
            Token::Dot => Err(self.error("unexpected .")),
        }
    }

    /// Parse the datum behind `#;`, and drop it.
    fn skip_datum(&mut self) -> (r: Result<(), ParseError>)
        requires
            old(self).well_formed(),
            syntax::tok(old(self).tokens(), old(self).pos as int) is DatumComment,
        ensures
            final(self).follows(*old(self)),
            match syntax::datum(old(self).tokens(), old(self).pos + 1) {
                Ok((_, q)) => r is Ok && final(self).pos == q,
                Err(e) => r is Err && error_view(r->Err_0) == e,
            },
            r is Ok ==> final(self).pos > old(self).pos,
    {
        self.advance();
        match self.parse_datum() {
            Ok(_) => Ok(()),
            Err(e) => Err(e),
        }
    }

    /// Parse the datum behind a quasiquote mark. Quasiquotation is not in the
    /// core syntax tree: it is represented as the application of a procedure
    /// `name` to the datum.
    fn parse_quasi(&mut self, name: &str) -> (r: Result<Expr, ParseError>)
        requires
            old(self).well_formed(),
            !(syntax::tok(old(self).tokens(), old(self).pos as int) is Eof),
        ensures
            final(self).follows(*old(self)),
            outcome(r, model::expr_view(r->Ok_0), final(self).pos) == syntax::applied(
                name@,
                syntax::datum(old(self).tokens(), old(self).pos + 1),
            ),
            r is Ok ==> final(self).pos > old(self).pos,
    {
        self.advance();
        match self.parse_datum() {
            Ok(d) => {
                let operator = Expr::Var(Ident(name.to_string()));
                let operand = datum_to_expr(d);
                let mut operands: Vec<Expr> = Vec::new();
                operands.push(operand);
                proof {
                    assert(model::expr_view(operator) == ExprView::Var(name@));
                    assert(model::exprs_view(operands@) =~= seq![model::expr_view(operand)]);
                }
                Ok(Expr::Application { operator: Box::new(operator), operands })
            },
            Err(e) => Err(e),
        }
    }

    /// Parse expressions up to the end of the list.
    fn parse_exprs(&mut self) -> (r: Result<Vec<Expr>, ParseError>)
        requires
            old(self).well_formed(),
        ensures
            final(self).follows(*old(self)),
            outcome(r, model::exprs_view(r->Ok_0@), final(self).pos) == syntax::exprs(
                old(self).tokens(),
                old(self).pos as int,
            ),
        decreases old(self).left(), 2nat,
    {
        let ghost t = self.tokens();
        let ghost start = self.pos as int;
        let mut items: Vec<Expr> = Vec::new();
        proof {
            syntax::lemma_prepend_nothing(syntax::exprs(t, start));
            assert(model::exprs_view(items@) =~= Seq::empty());
        }
        while !self.at_close()
            invariant
                self.follows(*old(self)),
                t == old(self).tokens(),
                start == old(self).pos,
                syntax::prepend(model::exprs_view(items@), syntax::exprs(t, self.pos as int))
                    == syntax::exprs(t, start),
            decreases self.left(),
        {
            let ghost done = items@;
            match self.parse_expr() {
                Ok(item) => {
                    items.push(item);
                    proof {
                        assert(model::exprs_view(items@) =~= model::exprs_view(done).push(
                            model::expr_view(item),
                        ));
                        syntax::lemma_prepend(
                            model::exprs_view(done),
                            model::expr_view(item),
                            syntax::exprs(t, self.pos as int),
                        );
                    }
                },
                Err(e) => return Err(e),
            }
        }
        assert(model::exprs_view(items@) + Seq::empty() =~= model::exprs_view(items@));
        Ok(items)
    }

    /// Parse a parenthesized form, behind its opening `(`: either a special
    /// form or a procedure application.
    fn parse_list_expr(&mut self) -> (r: Result<Expr, ParseError>)
        requires
            old(self).well_formed(),
        ensures
            final(self).follows(*old(self)),
            outcome(r, model::expr_view(r->Ok_0), final(self).pos) == syntax::list_expr(
                old(self).tokens(),
                old(self).pos as int,
            ),
            r is Ok ==> final(self).pos > old(self).pos,
        decreases old(self).left(), 5nat,
    {
        if matches!(self.peek(), Token::RightParen) {
            self.advance();
            // () is an empty application of nothing, which is a syntax error
            // in R6RS; represent as a literal empty list datum via quote.
            return Ok(Expr::Quote(Datum::Null));
        }
        let form = match self.peek() {
            Token::Symbol(s) => form_named(s.as_str()),
            _ => None,
        };
        match form {
            Some(form) => {
                self.advance();
                self.parse_special_form(form)
            },
            None => self.parse_application(),
        }
    }

    /// Parse the parts of a special form, behind its keyword.
    fn parse_special_form(&mut self, form: Form) -> (r: Result<Expr, ParseError>)
        requires
            old(self).well_formed(),
        ensures
            final(self).follows(*old(self)),
            outcome(r, model::expr_view(r->Ok_0), final(self).pos) == syntax::special_form(
                old(self).tokens(),
                old(self).pos as int,
                form,
            ),
            r is Ok ==> final(self).pos > old(self).pos,
        decreases old(self).left(), 6nat,
    {
        match form {
            Form::Quote => self.parse_quote(),
            Form::Lambda => self.parse_lambda(),
            Form::If => self.parse_if(),
            Form::SetBang => self.parse_set(),
            Form::Cond => self.parse_cond(),
            Form::Case => self.parse_case(),
            Form::When => self.parse_when_unless(true),
            Form::Unless => self.parse_when_unless(false),
            Form::And => self.parse_and_or(true),
            Form::Or => self.parse_and_or(false),
            Form::Let => self.parse_let(),
            Form::LetStar => self.parse_let_star(),
            Form::LetRec => self.parse_letrec(),
            Form::LetRecStar => self.parse_letrec_star(),
            Form::LetValues => self.parse_let_values(false),
            Form::LetStarValues => self.parse_let_values(true),
            Form::Begin => self.parse_begin(),
        }
    }

    fn parse_quote(&mut self) -> (r: Result<Expr, ParseError>)
        requires
            old(self).well_formed(),
        ensures
            final(self).follows(*old(self)),
            outcome(r, model::expr_view(r->Ok_0), final(self).pos) == syntax::special_form(
                old(self).tokens(),
                old(self).pos as int,
                Form::Quote,
            ),
            r is Ok ==> final(self).pos > old(self).pos,
        decreases old(self).left(), 5nat,
    {
        let d = match self.parse_datum() {
            Ok(d) => d,
            Err(e) => return Err(e),
        };
        match self.expect_close("expected ) to close quote") {
            Ok(_) => Ok(Expr::Quote(d)),
            Err(e) => Err(e),
        }
    }

    fn parse_begin(&mut self) -> (r: Result<Expr, ParseError>)
        requires
            old(self).well_formed(),
        ensures
            final(self).follows(*old(self)),
            outcome(r, model::expr_view(r->Ok_0), final(self).pos) == syntax::special_form(
                old(self).tokens(),
                old(self).pos as int,
                Form::Begin,
            ),
            r is Ok ==> final(self).pos > old(self).pos,
        decreases old(self).left(), 5nat,
    {
        let exprs = match self.parse_exprs() {
            Ok(exprs) => exprs,
            Err(e) => return Err(e),
        };
        match self.expect_close("expected ) to close begin") {
            Ok(_) => Ok(Expr::Begin(exprs)),
            Err(e) => Err(e),
        }
    }

    fn parse_application(&mut self) -> (r: Result<Expr, ParseError>)
        requires
            old(self).well_formed(),
        ensures
            final(self).follows(*old(self)),
            outcome(r, model::expr_view(r->Ok_0), final(self).pos) == syntax::application(
                old(self).tokens(),
                old(self).pos as int,
            ),
            r is Ok ==> final(self).pos > old(self).pos,
        decreases old(self).left(), 4nat,
    {
        let operator = match self.parse_expr() {
            Ok(operator) => operator,
            Err(e) => return Err(e),
        };
        let operands = match self.parse_exprs() {
            Ok(operands) => operands,
            Err(e) => return Err(e),
        };
        match self.expect_close("expected ) to close application") {
            Ok(_) => Ok(Expr::Application { operator: Box::new(operator), operands }),
            Err(e) => Err(e),
        }
    }

    fn parse_lambda(&mut self) -> (r: Result<Expr, ParseError>)
        requires
            old(self).well_formed(),
        ensures
            final(self).follows(*old(self)),
            outcome(r, model::expr_view(r->Ok_0), final(self).pos) == syntax::lambda(
                old(self).tokens(),
                old(self).pos as int,
            ),
            r is Ok ==> final(self).pos > old(self).pos,
        decreases old(self).left(), 4nat,
    {
        let formals = match self.parse_formals() {
            Ok(formals) => formals,
            Err(e) => return Err(e),
        };
        let body = match self.parse_body() {
            Ok(body) => body,
            Err(e) => return Err(e),
        };
        match self.expect_close("expected ) to close lambda") {
            Ok(_) => Ok(Expr::Lambda { formals, body }),
            Err(e) => Err(e),
        }
    }

    fn parse_if(&mut self) -> (r: Result<Expr, ParseError>)
        requires
            old(self).well_formed(),
        ensures
            final(self).follows(*old(self)),
            outcome(r, model::expr_view(r->Ok_0), final(self).pos) == syntax::if_form(
                old(self).tokens(),
                old(self).pos as int,
            ),
            r is Ok ==> final(self).pos > old(self).pos,
        decreases old(self).left(), 4nat,
    {
        let test = match self.parse_expr() {
            Ok(test) => test,
            Err(e) => return Err(e),
        };
        let consequent = match self.parse_expr() {
            Ok(consequent) => consequent,
            Err(e) => return Err(e),
        };
        let alternate = if matches!(self.peek(), Token::RightParen) {
            None
        } else {
            match self.parse_expr() {
                Ok(e) => Some(Box::new(e)),
                Err(e) => return Err(e),
            }
        };
        assert(model::optional_expr_view(alternate) == (match alternate {
            Some(e) => Some(Box::new(model::expr_view(*e))),
            None => None,
        }));
        match self.expect_close("expected ) to close if") {
            Ok(_) => Ok(
                Expr::If { test: Box::new(test), consequent: Box::new(consequent), alternate },
            ),
            Err(e) => Err(e),
        }
    }

    fn parse_set(&mut self) -> (r: Result<Expr, ParseError>)
        requires
            old(self).well_formed(),
        ensures
            final(self).follows(*old(self)),
            outcome(r, model::expr_view(r->Ok_0), final(self).pos) == syntax::set_form(
                old(self).tokens(),
                old(self).pos as int,
            ),
            r is Ok ==> final(self).pos > old(self).pos,
        decreases old(self).left(), 4nat,
    {
        let var = match self.parse_ident() {
            Ok(var) => var,
            Err(e) => return Err(e),
        };
        let value = match self.parse_expr() {
            Ok(value) => value,
            Err(e) => return Err(e),
        };
        match self.expect_close("expected ) to close set!") {
            Ok(_) => Ok(Expr::SetBang { var, value: Box::new(value) }),
            Err(e) => Err(e),
        }
    }

    fn parse_cond(&mut self) -> (r: Result<Expr, ParseError>)
        requires
            old(self).well_formed(),
        ensures
            final(self).follows(*old(self)),
            outcome(r, model::expr_view(r->Ok_0), final(self).pos) == syntax::special_form(
                old(self).tokens(),
                old(self).pos as int,
                Form::Cond,
            ),
            r is Ok ==> final(self).pos > old(self).pos,
        decreases old(self).left(), 5nat,
    {
        let clauses = match self.parse_cond_clauses() {
            Ok(clauses) => clauses,
            Err(e) => return Err(e),
        };
        match self.expect_close("expected ) to close cond") {
            Ok(_) => Ok(Expr::Cond(clauses)),
            Err(e) => Err(e),
        }
    }

    /// Parse `cond` clauses up to the end of the list.
    fn parse_cond_clauses(&mut self) -> (r: Result<Vec<CondClause>, ParseError>)
        requires
            old(self).well_formed(),
        ensures
            final(self).follows(*old(self)),
            outcome(r, model::cond_clauses_view(r->Ok_0@), final(self).pos) == syntax::cond_clauses(
                old(self).tokens(),
                old(self).pos as int,
            ),
        decreases old(self).left(), 4nat,
    {
        let ghost t = self.tokens();
        let ghost start = self.pos as int;
        let mut items: Vec<CondClause> = Vec::new();
        proof {
            syntax::lemma_prepend_nothing(syntax::cond_clauses(t, start));
            assert(model::cond_clauses_view(items@) =~= Seq::empty());
        }
        while !self.at_close()
            invariant
                self.follows(*old(self)),
                t == old(self).tokens(),
                start == old(self).pos,
                syntax::prepend(
                    model::cond_clauses_view(items@),
                    syntax::cond_clauses(t, self.pos as int),
                ) == syntax::cond_clauses(t, start),
            decreases self.left(),
        {
            let ghost done = items@;
            match self.parse_cond_clause() {
                Ok(item) => {
                    items.push(item);
                    proof {
                        assert(model::cond_clauses_view(items@) =~= model::cond_clauses_view(
                            done,
                        ).push(model::cond_clause_view(item)));
                        syntax::lemma_prepend(
                            model::cond_clauses_view(done),
                            model::cond_clause_view(item),
                            syntax::cond_clauses(t, self.pos as int),
                        );
                    }
                },
                Err(e) => return Err(e),
            }
        }
        assert(model::cond_clauses_view(items@) + Seq::empty() =~= model::cond_clauses_view(
            items@,
        ));
        Ok(items)
    }

    fn parse_cond_clause(&mut self) -> (r: Result<CondClause, ParseError>)
        requires
            old(self).well_formed(),
        ensures
            final(self).follows(*old(self)),
            outcome(r, model::cond_clause_view(r->Ok_0), final(self).pos) == syntax::cond_clause(
                old(self).tokens(),
                old(self).pos as int,
            ),
            r is Ok ==> final(self).pos > old(self).pos,
        decreases old(self).left(), 3nat,
    {
        match self.expect_open("expected ( to open cond clause") {
            Ok(_) => {},
            Err(e) => return Err(e),
        }
        if self.at_symbol("else") {
            self.advance();
            let body = match self.parse_exprs() {
                Ok(body) => body,
                Err(e) => return Err(e),
            };
            return match self.expect_close("expected ) to close else clause") {
                Ok(_) => Ok(CondClause::Else { body }),
                Err(e) => Err(e),
            };
        }
        let test = match self.parse_expr() {
            Ok(test) => test,
            Err(e) => return Err(e),
        };
        if self.at_symbol("=>") {
            self.advance();
            let recipient = match self.parse_expr() {
                Ok(recipient) => recipient,
                Err(e) => return Err(e),
            };
            return match self.expect_close("expected ) to close => clause") {
                Ok(_) => Ok(
                    CondClause::Arrow { test: Box::new(test), recipient: Box::new(recipient) },
                ),
                Err(e) => Err(e),
            };
        }
        let body = match self.parse_exprs() {
            Ok(body) => body,
            Err(e) => return Err(e),
        };
        match self.expect_close("expected ) to close cond clause") {
            Ok(_) => Ok(CondClause::Clause { test: Box::new(test), body }),
            Err(e) => Err(e),
        }
    }

    fn parse_case(&mut self) -> (r: Result<Expr, ParseError>)
        requires
            old(self).well_formed(),
        ensures
            final(self).follows(*old(self)),
            outcome(r, model::expr_view(r->Ok_0), final(self).pos) == syntax::case_form(
                old(self).tokens(),
                old(self).pos as int,
            ),
            r is Ok ==> final(self).pos > old(self).pos,
        decreases old(self).left(), 5nat,
    {
        let key = match self.parse_expr() {
            Ok(key) => key,
            Err(e) => return Err(e),
        };
        let clauses = match self.parse_case_clauses() {
            Ok(clauses) => clauses,
            Err(e) => return Err(e),
        };
        match self.expect_close("expected ) to close case") {
            Ok(_) => Ok(Expr::Case { key: Box::new(key), clauses }),
            Err(e) => Err(e),
        }
    }

    /// Parse `case` clauses up to the end of the list.
    fn parse_case_clauses(&mut self) -> (r: Result<Vec<CaseClause>, ParseError>)
        requires
            old(self).well_formed(),
        ensures
            final(self).follows(*old(self)),
            outcome(r, model::case_clauses_view(r->Ok_0@), final(self).pos) == syntax::case_clauses(
                old(self).tokens(),
                old(self).pos as int,
            ),
        decreases old(self).left(), 4nat,
    {
        let ghost t = self.tokens();
        let ghost start = self.pos as int;
        let mut items: Vec<CaseClause> = Vec::new();
        proof {
            syntax::lemma_prepend_nothing(syntax::case_clauses(t, start));
            assert(model::case_clauses_view(items@) =~= Seq::empty());
        }
        while !self.at_close()
            invariant
                self.follows(*old(self)),
                t == old(self).tokens(),
                start == old(self).pos,
                syntax::prepend(
                    model::case_clauses_view(items@),
                    syntax::case_clauses(t, self.pos as int),
                ) == syntax::case_clauses(t, start),
            decreases self.left(),
        {
            let ghost done = items@;
            match self.parse_case_clause() {
                Ok(item) => {
                    items.push(item);
                    proof {
                        assert(model::case_clauses_view(items@) =~= model::case_clauses_view(
                            done,
                        ).push(model::case_clause_view(item)));
                        syntax::lemma_prepend(
                            model::case_clauses_view(done),
                            model::case_clause_view(item),
                            syntax::case_clauses(t, self.pos as int),
                        );
                    }
                },
                Err(e) => return Err(e),
            }
        }
        assert(model::case_clauses_view(items@) + Seq::empty() =~= model::case_clauses_view(
            items@,
        ));
        Ok(items)
    }

    fn parse_case_clause(&mut self) -> (r: Result<CaseClause, ParseError>)
        requires
            old(self).well_formed(),
        ensures
            final(self).follows(*old(self)),
            outcome(r, model::case_clause_view(r->Ok_0), final(self).pos) == syntax::case_clause(
                old(self).tokens(),
                old(self).pos as int,
            ),
            r is Ok ==> final(self).pos > old(self).pos,
        decreases old(self).left(), 3nat,
    {
        match self.expect_open("expected ( to open case clause") {
            Ok(_) => {},
            Err(e) => return Err(e),
        }
        if self.at_symbol("else") {
            self.advance();
            let body = match self.parse_exprs() {
                Ok(body) => body,
                Err(e) => return Err(e),
            };
            return match self.expect_close("expected ) to close else clause") {
                Ok(_) => Ok(CaseClause::Else { body }),
                Err(e) => Err(e),
            };
        }
        match self.expect_open("expected ( to open datum list") {
            Ok(_) => {},
            Err(e) => return Err(e),
        }
        let data = match self.parse_data() {
            Ok(data) => data,
            Err(e) => return Err(e),
        };
        match self.expect_close("expected ) to close datum list") {
            Ok(_) => {},
            Err(e) => return Err(e),
        }
        let body = match self.parse_exprs() {
            Ok(body) => body,
            Err(e) => return Err(e),
        };
        match self.expect_close("expected ) to close case clause") {
            Ok(_) => Ok(CaseClause::Matches { data, body }),
            Err(e) => Err(e),
        }
    }

    fn parse_when_unless(&mut self, is_when: bool) -> (r: Result<Expr, ParseError>)
        requires
            old(self).well_formed(),
        ensures
            final(self).follows(*old(self)),
            outcome(r, model::expr_view(r->Ok_0), final(self).pos) == syntax::special_form(
                old(self).tokens(),
                old(self).pos as int,
                if is_when {
                    Form::When
                } else {
                    Form::Unless
                },
            ),
            r is Ok ==> final(self).pos > old(self).pos,
        decreases old(self).left(), 5nat,
    {
        let test = match self.parse_expr() {
            Ok(test) => test,
            Err(e) => return Err(e),
        };
        let body = match self.parse_exprs() {
            Ok(body) => body,
            Err(e) => return Err(e),
        };
        match self.expect_close("expected ) to close when/unless") {
            Ok(_) => {},
            Err(e) => return Err(e),
        }
        if is_when {
            Ok(Expr::When { test: Box::new(test), body })
        } else {
            Ok(Expr::Unless { test: Box::new(test), body })
        }
    }

    fn parse_and_or(&mut self, is_and: bool) -> (r: Result<Expr, ParseError>)
        requires
            old(self).well_formed(),
        ensures
            final(self).follows(*old(self)),
            outcome(r, model::expr_view(r->Ok_0), final(self).pos) == syntax::special_form(
                old(self).tokens(),
                old(self).pos as int,
                if is_and {
                    Form::And
                } else {
                    Form::Or
                },
            ),
            r is Ok ==> final(self).pos > old(self).pos,
        decreases old(self).left(), 5nat,
    {
        let exprs = match self.parse_exprs() {
            Ok(exprs) => exprs,
            Err(e) => return Err(e),
        };
        match self.expect_close("expected ) to close and/or") {
            Ok(_) => {},
            Err(e) => return Err(e),
        }
        if is_and {
            Ok(Expr::And(exprs))
        } else {
            Ok(Expr::Or(exprs))
        }
    }

    /// Parse the parts of `let`: behind an optional name, bindings and a body.
    fn parse_let(&mut self) -> (r: Result<Expr, ParseError>)
        requires
            old(self).well_formed(),
        ensures
            final(self).follows(*old(self)),
            outcome(r, model::expr_view(r->Ok_0), final(self).pos) == syntax::let_form(
                old(self).tokens(),
                old(self).pos as int,
            ),
            r is Ok ==> final(self).pos > old(self).pos,
        decreases old(self).left(), 5nat,
    {
        let name = match self.peek() {
            Token::Symbol(s) => Some(Ident(s.clone())),
            _ => None,
        };
        if name.is_some() {
            self.advance();
        }
        match self.parse_binding_form("expected ) to close let") {
            Ok((bindings, body)) => Ok(Expr::Let { name, bindings, body }),
            Err(e) => Err(e),
        }
    }

    fn parse_let_star(&mut self) -> (r: Result<Expr, ParseError>)
        requires
            old(self).well_formed(),
        ensures
            final(self).follows(*old(self)),
            outcome(r, model::expr_view(r->Ok_0), final(self).pos) == syntax::special_form(
                old(self).tokens(),
                old(self).pos as int,
                Form::LetStar,
            ),
            r is Ok ==> final(self).pos > old(self).pos,
        decreases old(self).left(), 5nat,
    {
        match self.parse_binding_form("expected ) to close let*") {
            Ok((bindings, body)) => Ok(Expr::LetStar { bindings, body }),
            Err(e) => Err(e),
        }
    }

    fn parse_letrec(&mut self) -> (r: Result<Expr, ParseError>)
        requires
            old(self).well_formed(),
        ensures
            final(self).follows(*old(self)),
            outcome(r, model::expr_view(r->Ok_0), final(self).pos) == syntax::special_form(
                old(self).tokens(),
                old(self).pos as int,
                Form::LetRec,
            ),
            r is Ok ==> final(self).pos > old(self).pos,
        decreases old(self).left(), 5nat,
    {
        match self.parse_binding_form("expected ) to close letrec") {
            Ok((bindings, body)) => Ok(Expr::LetRec { bindings, body }),
            Err(e) => Err(e),
        }
    }

    fn parse_letrec_star(&mut self) -> (r: Result<Expr, ParseError>)
        requires
            old(self).well_formed(),
        ensures
            final(self).follows(*old(self)),
            outcome(r, model::expr_view(r->Ok_0), final(self).pos) == syntax::special_form(
                old(self).tokens(),
                old(self).pos as int,
                Form::LetRecStar,
            ),
            r is Ok ==> final(self).pos > old(self).pos,
        decreases old(self).left(), 5nat,
    {
        match self.parse_binding_form("expected ) to close letrec*") {
            Ok((bindings, body)) => Ok(Expr::LetRecStar { bindings, body }),
            Err(e) => Err(e),
        }
    }

    fn parse_let_values(&mut self, star: bool) -> (r: Result<Expr, ParseError>)
        requires
            old(self).well_formed(),
        ensures
            final(self).follows(*old(self)),
            outcome(r, model::expr_view(r->Ok_0), final(self).pos) == syntax::special_form(
                old(self).tokens(),
                old(self).pos as int,
                if star {
                    Form::LetStarValues
                } else {
                    Form::LetValues
                },
            ),
            r is Ok ==> final(self).pos > old(self).pos,
        decreases old(self).left(), 5nat,
    {
        let bindings = match self.parse_mv_bindings() {
            Ok(bindings) => bindings,
            Err(e) => return Err(e),
        };
        let body = match self.parse_body() {
            Ok(body) => body,
            Err(e) => return Err(e),
        };
        match self.expect_close("expected ) to close") {
            Ok(_) => {},
            Err(e) => return Err(e),
        }
        if star {
            Ok(Expr::LetStarValues { bindings, body })
        } else {
            Ok(Expr::LetValues { bindings, body })
        }
    }

    /// Parse bindings, a body, and the `)` that closes their form.
    fn parse_binding_form(&mut self, message: &str) -> (r: Result<(Vec<Binding>, Body), ParseError>)
        requires
            old(self).well_formed(),
        ensures
            final(self).follows(*old(self)),
            outcome(
                r,
                (model::bindings_view(r->Ok_0.0@), model::body_view(r->Ok_0.1)),
                final(self).pos,
            ) == syntax::binding_form(
                old(self).tokens(),
                old(self).pos as int,
                message@,
            ),
            r is Ok ==> final(self).pos > old(self).pos,
        decreases old(self).left(), 4nat,
    {
        let bindings = match self.parse_bindings() {
            Ok(bindings) => bindings,
            Err(e) => return Err(e),
        };
        let body = match self.parse_body() {
            Ok(body) => body,
            Err(e) => return Err(e),
        };
        match self.expect_close(message) {
            Ok(_) => Ok((bindings, body)),
            Err(e) => Err(e),
        }
    }

    fn parse_bindings(&mut self) -> (r: Result<Vec<Binding>, ParseError>)
        requires
            old(self).well_formed(),
        ensures
            final(self).follows(*old(self)),
            outcome(r, model::bindings_view(r->Ok_0@), final(self).pos) == syntax::bindings(
                old(self).tokens(),
                old(self).pos as int,
            ),
            r is Ok ==> final(self).pos > old(self).pos,
        decreases old(self).left(), 3nat,
    {
        match self.expect_open("expected ( to open bindings") {
            Ok(_) => {},
            Err(e) => return Err(e),
        }
        let bindings = match self.parse_binding_items() {
            Ok(bindings) => bindings,
            Err(e) => return Err(e),
        };
        match self.expect_close("expected ) to close bindings") {
            Ok(_) => Ok(bindings),
            Err(e) => Err(e),
        }
    }

    /// Parse bindings up to the end of their list.
    fn parse_binding_items(&mut self) -> (r: Result<Vec<Binding>, ParseError>)
        requires
            old(self).well_formed(),
        ensures
            final(self).follows(*old(self)),
            outcome(r, model::bindings_view(r->Ok_0@), final(self).pos) == syntax::binding_items(
                old(self).tokens(),
                old(self).pos as int,
            ),
        decreases old(self).left(), 3nat,
    {
        let ghost t = self.tokens();
        let ghost start = self.pos as int;
        let mut items: Vec<Binding> = Vec::new();
        proof {
            syntax::lemma_prepend_nothing(syntax::binding_items(t, start));
            assert(model::bindings_view(items@) =~= Seq::empty());
        }
        while !self.at_close()
            invariant
                self.follows(*old(self)),
                t == old(self).tokens(),
                start == old(self).pos,
                syntax::prepend(
                    model::bindings_view(items@),
                    syntax::binding_items(t, self.pos as int),
                ) == syntax::binding_items(t, start),
            decreases self.left(),
        {
            let ghost done = items@;
            match self.parse_binding() {
                Ok(item) => {
                    items.push(item);
                    proof {
                        assert(model::bindings_view(items@) =~= model::bindings_view(
                            done,
                        ).push(model::binding_view(item)));
                        syntax::lemma_prepend(
                            model::bindings_view(done),
                            model::binding_view(item),
                            syntax::binding_items(t, self.pos as int),
                        );
                    }
                },
                Err(e) => return Err(e),
            }
        }
        assert(model::bindings_view(items@) + Seq::empty() =~= model::bindings_view(items@));
        Ok(items)
    }

    fn parse_binding(&mut self) -> (r: Result<Binding, ParseError>)
        requires
            old(self).well_formed(),
        ensures
            final(self).follows(*old(self)),
            outcome(r, model::binding_view(r->Ok_0), final(self).pos) == syntax::binding(
                old(self).tokens(),
                old(self).pos as int,
            ),
            r is Ok ==> final(self).pos > old(self).pos,
        decreases old(self).left(), 2nat,
    {
        match self.expect_open("expected ( to open binding") {
            Ok(_) => {},
            Err(e) => return Err(e),
        }
        let name = match self.parse_ident() {
            Ok(name) => name,
            Err(e) => return Err(e),
        };
        let init = match self.parse_expr() {
            Ok(init) => init,
            Err(e) => return Err(e),
        };
        match self.expect_close("expected ) to close binding") {
            Ok(_) => Ok(Binding { name, init: Box::new(init) }),
            Err(e) => Err(e),
        }
    }

    fn parse_mv_bindings(&mut self) -> (r: Result<Vec<MvBinding>, ParseError>)
        requires
            old(self).well_formed(),
        ensures
            final(self).follows(*old(self)),
            outcome(r, model::mv_bindings_view(r->Ok_0@), final(self).pos) == syntax::mv_bindings(
                old(self).tokens(),
                old(self).pos as int,
            ),
            r is Ok ==> final(self).pos > old(self).pos,
        decreases old(self).left(), 3nat,
    {
        match self.expect_open("expected ( to open mv bindings") {
            Ok(_) => {},
            Err(e) => return Err(e),
        }
        let bindings = match self.parse_mv_binding_items() {
            Ok(bindings) => bindings,
            Err(e) => return Err(e),
        };
        match self.expect_close("expected ) to close mv bindings") {
            Ok(_) => Ok(bindings),
            Err(e) => Err(e),
        }
    }

    /// Parse multiple-values bindings up to the end of their list.
    fn parse_mv_binding_items(&mut self) -> (r: Result<Vec<MvBinding>, ParseError>)
        requires
            old(self).well_formed(),
        ensures
            final(self).follows(*old(self)),
            outcome(r, model::mv_bindings_view(r->Ok_0@), final(self).pos)
                == syntax::mv_binding_items(
                old(self).tokens(),
                old(self).pos as int,
            ),
        decreases old(self).left(), 3nat,
    {
        let ghost t = self.tokens();
        let ghost start = self.pos as int;
        let mut items: Vec<MvBinding> = Vec::new();
        proof {
            syntax::lemma_prepend_nothing(syntax::mv_binding_items(t, start));
            assert(model::mv_bindings_view(items@) =~= Seq::empty());
        }
        while !self.at_close()
            invariant
                self.follows(*old(self)),
                t == old(self).tokens(),
                start == old(self).pos,
                syntax::prepend(
                    model::mv_bindings_view(items@),
                    syntax::mv_binding_items(t, self.pos as int),
                ) == syntax::mv_binding_items(t, start),
            decreases self.left(),
        {
            let ghost done = items@;
            match self.parse_mv_binding() {
                Ok(item) => {
                    items.push(item);
                    proof {
                        assert(model::mv_bindings_view(items@) =~= model::mv_bindings_view(
                            done,
                        ).push(model::mv_binding_view(item)));
                        syntax::lemma_prepend(
                            model::mv_bindings_view(done),
                            model::mv_binding_view(item),
                            syntax::mv_binding_items(t, self.pos as int),
                        );
                    }
                },
                Err(e) => return Err(e),
            }
        }
        assert(model::mv_bindings_view(items@) + Seq::empty() =~= model::mv_bindings_view(items@));
        Ok(items)
    }

    fn parse_mv_binding(&mut self) -> (r: Result<MvBinding, ParseError>)
        requires
            old(self).well_formed(),
        ensures
            final(self).follows(*old(self)),
            outcome(r, model::mv_binding_view(r->Ok_0), final(self).pos) == syntax::mv_binding(
                old(self).tokens(),
                old(self).pos as int,
            ),
            r is Ok ==> final(self).pos > old(self).pos,
        decreases old(self).left(), 2nat,
    {
        match self.expect_open("expected ( to open mv binding") {
            Ok(_) => {},
            Err(e) => return Err(e),
        }
        let formals = match self.parse_formals() {
            Ok(formals) => formals,
            Err(e) => return Err(e),
        };
        let init = match self.parse_expr() {
            Ok(init) => init,
            Err(e) => return Err(e),
        };
        match self.expect_close("expected ) to close mv binding") {
            Ok(_) => Ok(MvBinding { formals, init: Box::new(init) }),
            Err(e) => Err(e),
        }
    }

    // ---- Datum layer ----

    fn parse_datum(&mut self) -> (r: Result<Datum, ParseError>)
        requires
            old(self).well_formed(),
        ensures
            final(self).follows(*old(self)),
            outcome(r, model::datum_view(r->Ok_0), final(self).pos) == syntax::datum(
                old(self).tokens(),
                old(self).pos as int,
            ),
            r is Ok ==> final(self).pos > old(self).pos,
            (syntax::at_close(old(self).tokens(), old(self).pos as int) || syntax::tok(
                old(self).tokens(),
                old(self).pos as int,
            ) is Dot) ==> {
                &&& r is Err
                &&& r->Err_0.span == old(self).tokens()[old(self).pos as int].span
                &&& final(self).pos == old(self).pos
            },
        decreases old(self).left(), 1nat,
    {
        let ghost t = self.tokens();
        let ghost start = self.pos as int;
        while matches!(self.peek(), Token::DatumComment)
            invariant
                self.follows(*old(self)),
                t == old(self).tokens(),
                start == old(self).pos,
                syntax::datum(t, self.pos as int) == syntax::datum(t, start),
                !(syntax::tok(t, start) is DatumComment) ==> self.pos == start,
            decreases self.left(),
        {
            self.advance();
            match self.parse_datum() {
                Ok(_) => {},
                Err(e) => return Err(e),
            }
        }
        let token = self.peek().clone();
        match token {
            Token::Boolean(b) => {
                self.advance();
                Ok(Datum::Boolean(b))
            },
            Token::Character(c) => {
                self.advance();
                Ok(Datum::Character(c))
            },
            Token::Number(n) => {
                self.advance();
                Ok(Datum::Number(n))
            },
            Token::String(s) => {
                self.advance();
                Ok(Datum::String(s))
            },
            Token::Symbol(s) => {
                self.advance();
                Ok(Datum::Symbol(s))
            },
            Token::Quote => self.parse_abbreviation("quote"),
            Token::QuasiQuote => self.parse_abbreviation("quasiquote"),
            Token::Unquote => self.parse_abbreviation("unquote"),
            Token::UnquoteSplicing => self.parse_abbreviation("unquote-splicing"),
            Token::VectorPrefix => {
                self.advance();
                let items = match self.parse_data() {
                    Ok(items) => items,
                    Err(e) => return Err(e),
                };
                match self.expect_close("expected ) to close vector") {
                    Ok(_) => Ok(Datum::Vector(items)),
                    Err(e) => Err(e),
                }
            },
            Token::ByteVectorPrefix => {
                self.advance();
                let bytes = match self.parse_octets() {
                    Ok(bytes) => bytes,
                    Err(e) => return Err(e),
                };
                match self.expect_close("expected ) to close bytevector") {
                    Ok(_) => Ok(Datum::ByteVector(bytes)),
                    Err(e) => Err(e),
                }
            },
            Token::LeftParen => {
                self.advance();
                self.parse_list_datum()
            },
            Token::RightParen => Err(self.error("unexpected )")),
            Token::Dot => Err(self.error("unexpected .")),
            // The loop leaves no datum comment here.
            Token::Eof | Token::DatumComment => Err(self.error("unexpected end of input")),
        }
    }

    /// Parses a datum behind the mark of a quote abbreviation, as the list of
    /// the symbol `name` and that datum.
    fn parse_abbreviation(&mut self, name: &str) -> (r: Result<Datum, ParseError>)
        requires
            old(self).well_formed(),
            !(syntax::tok(old(self).tokens(), old(self).pos as int) is Eof),
        ensures
            final(self).follows(*old(self)),
            outcome(r, model::datum_view(r->Ok_0), final(self).pos) == syntax::abbreviation(
                name@,
                syntax::datum(old(self).tokens(), old(self).pos + 1),
            ),
            r is Ok ==> final(self).pos > old(self).pos,
        decreases old(self).left(), 0nat,
    {
        self.advance();
        match self.parse_datum() {
            Ok(d) => {
                proof {
                    reveal_with_fuel(model::datum_view, 3);
                }
                let list = Datum::Pair(Box::new(d), Box::new(Datum::Null));
                Ok(Datum::Pair(Box::new(Datum::Symbol(name.to_string())), Box::new(list)))
            },
            Err(e) => Err(e),
        }
    }

    /// Parses data up to the end of the list.
    fn parse_data(&mut self) -> (r: Result<Vec<Datum>, ParseError>)
        requires
            old(self).well_formed(),
        ensures
            final(self).follows(*old(self)),
            outcome(r, model::data_view(r->Ok_0@), final(self).pos) == syntax::data(
                old(self).tokens(),
                old(self).pos as int,
            ),
        decreases old(self).left(), 2nat,
    {
        let ghost t = self.tokens();
        let ghost start = self.pos as int;
        let mut items: Vec<Datum> = Vec::new();
        proof {
            syntax::lemma_prepend_nothing(syntax::data(t, start));
            assert(model::data_view(items@) =~= Seq::empty());
        }
        while !self.at_close()
            invariant
                self.follows(*old(self)),
                t == old(self).tokens(),
                start == old(self).pos,
                syntax::prepend(model::data_view(items@), syntax::data(t, self.pos as int))
                    == syntax::data(t, start),
            decreases self.left(),
        {
            let ghost done = items@;
            match self.parse_datum() {
                Ok(d) => {
                    items.push(d);
                    proof {
                        assert(model::data_view(items@) =~= model::data_view(done).push(
                            model::datum_view(d),
                        ));
                        syntax::lemma_prepend(
                            model::data_view(done),
                            model::datum_view(d),
                            syntax::data(t, self.pos as int),
                        );
                    }
                },
                Err(e) => return Err(e),
            }
        }
        assert(model::data_view(items@) + Seq::empty() =~= model::data_view(items@));
        Ok(items)
    }

    /// Parses bytes up to the end of the list.
    fn parse_octets(&mut self) -> (r: Result<Vec<u8>, ParseError>)
        requires
            old(self).well_formed(),
        ensures
            final(self).follows(*old(self)),
            outcome(r, r->Ok_0@, final(self).pos) == syntax::octets(
                old(self).tokens(),
                old(self).pos as int,
            ),
        decreases old(self).left(), 2nat,
    {
        let ghost t = self.tokens();
        let ghost start = self.pos as int;
        let mut bytes: Vec<u8> = Vec::new();
        proof {
            syntax::lemma_prepend_nothing(syntax::octets(t, start));
            assert(bytes@ =~= Seq::empty());
        }
        while !self.at_close()
            invariant
                self.follows(*old(self)),
                t == old(self).tokens(),
                start == old(self).pos,
                syntax::prepend(bytes@, syntax::octets(t, self.pos as int)) == syntax::octets(
                    t,
                    start,
                ),
            decreases self.left(),
        {
            let item = match self.parse_datum() {
                Ok(item) => item,
                Err(e) => return Err(e),
            };
            match octet(&item) {
                Some(n) => {
                    proof {
                        syntax::lemma_prepend(bytes@, n, syntax::octets(t, self.pos as int));
                    }
                    bytes.push(n);
                },
                None => return Err(self.error("bytevector must contain exact uint8")),
            }
        }
        assert(bytes@ + Seq::empty() =~= bytes@);
        Ok(bytes)
    }

    /// Parses a list behind its opening parenthesis.
    fn parse_list_datum(&mut self) -> (r: Result<Datum, ParseError>)
        requires
            old(self).well_formed(),
        ensures
            final(self).follows(*old(self)),
            outcome(r, model::datum_view(r->Ok_0), final(self).pos) == syntax::closed(
                old(self).tokens(),
                syntax::list_rest(old(self).tokens(), old(self).pos as int),
                "expected ) to close list"@,
            ),
        decreases old(self).left(), 2nat,
    {
        let ghost t = self.tokens();
        let ghost start = self.pos as int;
        let mut items: Vec<Datum> = Vec::new();
        let mut tail = Datum::Null;
        while !self.at_close() && !matches!(self.peek(), Token::Dot)
            invariant
                self.follows(*old(self)),
                t == old(self).tokens(),
                start == old(self).pos,
                tail is Null,
                syntax::chained(model::data_view(items@), syntax::list_rest(t, self.pos as int))
                    == syntax::list_rest(t, start),
            decreases self.left(),
        {
            let ghost done = items@;
            match self.parse_datum() {
                Ok(d) => {
                    items.push(d);
                    proof {
                        assert(model::data_view(items@) =~= model::data_view(done).push(
                            model::datum_view(d),
                        ));
                        assert(model::data_view(items@).drop_last() =~= model::data_view(done));
                    }
                },
                Err(e) => return Err(e),
            }
        }
        if matches!(self.peek(), Token::Dot) {
            self.advance();
            tail = match self.parse_datum() {
                Ok(d) => d,
                Err(e) => return Err(e),
            };
        }
        match self.expect_close("expected ) to close list") {
            Ok(_) => {},
            Err(e) => return Err(e),
        }
        let ghost value = syntax::chain(model::data_view(items@), model::datum_view(tail));
        let mut list = tail;
        while items.len() > 0
            invariant
                syntax::chain(model::data_view(items@), model::datum_view(list)) == value,
            decreases items@.len(),
        {
            let ghost before = items@;
            match items.pop() {
                Some(d) => {
                    proof {
                        assert(model::data_view(items@) =~= model::data_view(before).drop_last());
                    }
                    list = Datum::Pair(Box::new(d), Box::new(list));
                },
                None => {},
            }
        }
        Ok(list)
    }
}

/// Parse a full program (a sequence of top-level forms) from source.
pub fn parse_program(src: &str) -> (r: Result<Program, ParseError>)
    ensures
        program_result(r) == syntax::program(src.spec_bytes()),
{
    let toks = match tokenize(src) {
        Ok(toks) => toks,
        Err(e) => return Err(ParseError::from(e)),
    };
    proof {
        laws::law_single_trailing_eof(src.spec_bytes());
    }
    let mut p = Parser::new(toks);
    match p.parse_program_forms() {
        Ok(forms) => Ok(Program { forms }),
        Err(e) => Err(e),
    }
}

/// Parse a single expression from source (useful for tests / REPL).
pub fn parse_expr(src: &str) -> (r: Result<Expr, ParseError>)
    ensures
        expr_result(r) == syntax::expression(src.spec_bytes()),
{
    let toks = match tokenize(src) {
        Ok(toks) => toks,
        Err(e) => return Err(ParseError::from(e)),
    };
    proof {
        laws::law_single_trailing_eof(src.spec_bytes());
    }
    let mut p = Parser::new(toks);
    match p.parse_expr() {
        Ok(e) => if p.at_end() {
            Ok(e)
        } else {
            Err(p.error("unexpected trailing input"))
        },
        Err(e) => Err(e),
    }
}

} // verus!
