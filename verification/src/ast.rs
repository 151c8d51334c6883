//! Abstract syntax tree for the R6RS dialect of Scheme.
//!
//! The AST is a faithful representation of the surface syntax of the
//! `(rnrs base (6))` library plus the common forms of the R6RS top-level
//! program and library syntax (chapter 7). It is *concrete* in shape: every
//! syntactic form that has a distinct grammar production gets its own node, so
//! that a macro-expansion or desugaring pass can transform each form
//! independently.
//!
//! The tree does not resolve binding structure or perform any semantic
//! analysis. What each node stands for mathematically is said in
//! [`crate::model`].

use vstd::prelude::*;

verus! {

/// A Scheme identifier: a variable or keyword reference.
#[derive(Debug, PartialEq, Eq, Hash)]
pub struct Ident(pub String);

impl Ident {
    /// The identifier's text.
    pub fn to_string(&self) -> (text: String)
        ensures
            text@ == self.0@,
    {
        self.0.clone()
    }
}

/// A lexical datum, as defined by R6RS section 4.3.
///
/// Datums are the literal data carried by `quote`, `case` clauses, and the
/// read syntax. They are kept separate from [`Expr`] because a quoted
/// `(+ 1 2)` is data, not an expression to be evaluated.
#[derive(Debug, PartialEq)]
pub enum Datum {
    Boolean(bool),
    Character(char),
    Number(Number),
    String(String),
    Symbol(String),
    /// The empty list `()`.
    Null,
    /// A proper or improper list. The first element is the `car`; the
    /// second is the `cdr`, which is either another `Pair` or one of
    /// `Null`/`Datum` (for an improper tail).
    Pair(Box<Datum>, Box<Datum>),
    /// A vector `#(d ...)`.
    Vector(Vec<Datum>),
    /// A bytevector `#vu8(u8 ...)`.
    ByteVector(Vec<u8>),
}

/// R6RS numbers are split into the exactness tower of section 11.7.
///
/// Only the representable subsets are modeled here; the full numeric tower
/// (rationals, complexes) is layered on top of this in later passes.
#[derive(Debug, PartialEq)]
pub enum Number {
    /// An exact integer.
    Fixnum(i64),
    /// An inexact real, held as the decimal literal that denotes it. Those
    /// that the lexer produces have the shape of
    /// [`crate::lexical::decimal_syntax`]. Equality is that of the literals:
    /// `1.0` and `1.00` denote one number and are different here.
    Flonum(String),
}

impl Clone for Number {
    fn clone(&self) -> (copy: Self)
        ensures
            copy == *self,
    {
        match self {
            Number::Fixnum(n) => Number::Fixnum(*n),
            Number::Flonum(text) => Number::Flonum(text.clone()),
        }
    }
}

/// Formal parameter list of a `lambda` expression (R6RS section 11.4.2).
///
/// The three permitted shapes are:
///   - fixed arity: `(a b c)`;
///   - fully variadic: `rest`;
///   - variadic tail: `(a b . rest)`.
#[derive(Debug, PartialEq, Eq)]
pub struct Formals {
    /// The fixed parameters, matched left to right.
    pub fixed: Vec<Ident>,
    /// The rest parameter, if any. `Some` means a trailing `. <var>` or a
    /// bare `<var>` form.
    pub rest: Option<Ident>,
}

/// A binding specification shared by the `let` family and `define`.
#[derive(Debug, PartialEq)]
pub struct Binding {
    pub name: Ident,
    pub init: Box<Expr>,
}

/// A multiple-values binding, as used by `let-values` and `let*-values`.
/// The `formals` are matched against the values produced by `init`.
#[derive(Debug, PartialEq)]
pub struct MvBinding {
    pub formals: Formals,
    pub init: Box<Expr>,
}

/// The body of a `lambda` or binding form: zero or more internal
/// definitions followed by one or more expressions (R6RS section 11.3).
#[derive(Debug, PartialEq)]
pub struct Body {
    pub definitions: Vec<Definition>,
    pub expressions: Vec<Expr>,
}

/// An internal or top-level definition (R6RS section 11.2).
#[derive(Debug, PartialEq)]
#[allow(inconsistent_fields)]
pub enum Definition {
    /// `(define <var> <expr>)` or `(define <var>)`.
    Variable { name: Ident, init: Option<Box<Expr>> },
    /// `(define (<var> . <formals>) <body>)`, the curried-definition shorthand.
    Function { name: Ident, formals: Formals, body: Body },
    /// `(define-syntax <keyword> <expr>)`.
    Syntax { keyword: Ident, init: Box<Expr> },
}

/// A `case` clause: either a datum-match clause or an `else` clause.
#[derive(Debug, PartialEq)]
pub enum CaseClause {
    /// `((d ...) <expr> ...)`.
    Matches { data: Vec<Datum>, body: Vec<Expr> },
    /// `(else <expr> ...)`.
    Else { body: Vec<Expr> },
}

/// A `cond` clause: a test plus a body, the `=>` form, or `else`.
#[derive(Debug, PartialEq)]
pub enum CondClause {
    /// `(<test> <expr> ...)`.
    Clause { test: Box<Expr>, body: Vec<Expr> },
    /// `(<test> => <expr>)`.
    Arrow { test: Box<Expr>, recipient: Box<Expr> },
    /// `(else <expr> ...)`.
    Else { body: Vec<Expr> },
}

/// A Scheme expression (R6RS section 11.4).
#[derive(Debug, PartialEq)]
#[allow(inconsistent_fields)]
pub enum Expr {
    /// A literal datum.
    Literal(Datum),
    /// A variable reference.
    Var(Ident),
    /// `(quote <datum>)`.
    Quote(Datum),
    /// `(lambda <formals> <body>)`.
    Lambda { formals: Formals, body: Body },
    /// `(if <test> <consequent> <alternate>?)`.
    If { test: Box<Expr>, consequent: Box<Expr>, alternate: Option<Box<Expr>> },
    /// `(set! <var> <expr>)`.
    SetBang { var: Ident, value: Box<Expr> },
    /// `(cond <cond-clause> ...)`.
    Cond(Vec<CondClause>),
    /// `(case <key> <case-clause> ...)`.
    Case { key: Box<Expr>, clauses: Vec<CaseClause> },
    /// `(when <test> <expr> ...)`.
    When { test: Box<Expr>, body: Vec<Expr> },
    /// `(unless <test> <expr> ...)`.
    Unless { test: Box<Expr>, body: Vec<Expr> },
    /// `(and <expr> ...)`.
    And(Vec<Expr>),
    /// `(or <expr> ...)`.
    Or(Vec<Expr>),
    /// `(let <bindings> <body>)` or named let `(let <var> <bindings> <body>)`.
    Let { name: Option<Ident>, bindings: Vec<Binding>, body: Body },
    /// `(let* <bindings> <body>)`.
    LetStar { bindings: Vec<Binding>, body: Body },
    /// `(letrec <bindings> <body>)`.
    LetRec { bindings: Vec<Binding>, body: Body },
    /// `(letrec* <bindings> <body>)`.
    LetRecStar { bindings: Vec<Binding>, body: Body },
    /// `(let-values <mv-bindings> <body>)`.
    LetValues { bindings: Vec<MvBinding>, body: Body },
    /// `(let*-values <mv-bindings> <body>)`.
    LetStarValues { bindings: Vec<MvBinding>, body: Body },
    /// `(begin <expr> ...)`.
    Begin(Vec<Expr>),
    /// A procedure application: `(<operator> <operand> ...)`.
    Application { operator: Box<Expr>, operands: Vec<Expr> },
}

/// A top-level program form (R6RS chapter 8 / library form of chapter 7).
#[derive(Debug, PartialEq)]
pub enum TopLevelForm {
    Definition(Definition),
    Expr(Expr),
    /// A `(begin <form> ...)` used purely for splicing at the top level.
    Begin(Vec<TopLevelForm>),
}

/// A complete R6RS program: a sequence of top-level forms.
#[derive(Debug, PartialEq)]
pub struct Program {
    pub forms: Vec<TopLevelForm>,
}

} // verus!
