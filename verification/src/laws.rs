//! What holds of every source.

use crate::ascii::{BAR, HASH, NEWLINE, POINT, SEMICOLON};
use crate::comments;
use crate::lexical;
use crate::lexical::{ByteClass, ErrorView, Lexeme, SpannedView, TokenView};
use crate::model::{DatumView, ExprView, TopLevelFormView};
use crate::soundness;
use crate::surroundings;
use crate::syntax;
use crate::syntax::Form;
use crate::writing;
use vstd::prelude::*;

verus! {

// ---- Tokens ----

/// Whether the tokens `t` of the source from `i` on carry the positions of
/// growing offsets, up to the end of the source.
spec fn in_order(b: Seq<u8>, i: int, t: Seq<SpannedView>) -> bool {
    &&& t.len() > 0
    &&& forall|k: int|
        0 <= k < t.len() ==> {
            &&& i <= (#[trigger] t[k]).span.offset <= b.len()
            &&& t[k].span == lexical::span_at(b, t[k].span.offset as int)
        }
    &&& forall|j: int, k: int|
        0 <= j < k < t.len() ==> (#[trigger] t[j]).span.offset < (#[trigger] t[k]).span.offset
    &&& t.last().span.offset == b.len()
}

proof fn lemma_in_order(b: Seq<u8>, i: int)
    requires
        0 <= i <= b.len() <= usize::MAX,
    ensures
        lexical::tokens_from(b, i) matches Ok(t) ==> in_order(b, i, t),
    decreases b.len() - i,
{
    if i < b.len() {
        lexical::lemma_lexeme_end(b, i);
        match lexical::lexeme_at(b, i) {
            Lexeme::Blank(end) => lemma_in_order(b, end),
            Lexeme::Token(token, end) => lemma_in_order(b, end),
            Lexeme::Bad(f) => {},
        }
    }
}

proof fn lemma_no_early_eof(b: Seq<u8>, i: int)
    requires
        0 <= i <= b.len(),
    ensures
        lexical::tokens_from(b, i) matches Ok(t) ==> {
            &&& t.len() > 0
            &&& t.last().token is Eof
            &&& forall|k: int| 0 <= k < t.len() - 1 ==> !((#[trigger] t[k]).token is Eof)
        },
    decreases b.len() - i,
{
    if i < b.len() {
        lexical::lemma_lexeme_end(b, i);
        match lexical::lexeme_at(b, i) {
            Lexeme::Blank(end) => lemma_no_early_eof(b, end),
            Lexeme::Token(token, end) => {
                lemma_no_early_eof(b, end);
                assert(!(token is Eof));
            },
            Lexeme::Bad(f) => {},
        }
    }
}

/// Every token sequence ends in the end of input, which occurs nowhere else.
pub proof fn law_single_trailing_eof(b: Seq<u8>)
    ensures
        lexical::tokens(b) matches Ok(t) ==> {
            &&& t.len() > 0
            &&& t.last().token is Eof
            &&& forall|k: int| 0 <= k < t.len() - 1 ==> !((#[trigger] t[k]).token is Eof)
        },
{
    lemma_no_early_eof(b, 0);
}

/// Every token carries the position of its offset, the offsets grow from token
/// to token, and the end of input lies at the end of the source.
pub proof fn law_token_positions(b: Seq<u8>)
    requires
        b.len() <= usize::MAX,
    ensures
        lexical::tokens(b) matches Ok(t) ==> {
            &&& forall|k: int|
                0 <= k < t.len() ==> {
                    &&& (#[trigger] t[k]).span.offset <= b.len()
                    &&& t[k].span == lexical::span_at(b, t[k].span.offset as int)
                }
            &&& forall|j: int, k: int|
                0 <= j < k < t.len() ==>
                    (#[trigger] t[j]).span.offset < (#[trigger] t[k]).span.offset
            &&& t.last().span.offset == b.len()
        },
{
    lemma_in_order(b, 0);
}

/// Lines and columns count from one.
pub proof fn law_positions_count_from_one(b: Seq<u8>, n: int)
    requires
        0 <= n <= b.len(),
    ensures
        lexical::span_at(b, n).line >= 1,
        lexical::span_at(b, n).column >= 1,
{
    lexical::lemma_position(b, n);
}

// ---- Errors ----

/// Whether an error lies at a place of the source, its end included.
pub open spec fn inside(b: Seq<u8>, e: ErrorView) -> bool {
    exists|n: int| 0 <= n <= b.len() && e.span == #[trigger] lexical::span_at(b, n)
}

proof fn lemma_lexical_error(b: Seq<u8>, i: int)
    requires
        0 <= i <= b.len(),
    ensures
        lexical::tokens_from(b, i) matches Err(e) ==> inside(b, e),
        lexical::tokens_from(b, i) matches Ok(t) ==> forall|k: int|
            0 <= k < t.len() ==> exists|n: int|
                0 <= n <= b.len() && (#[trigger] t[k]).span == #[trigger] lexical::span_at(b, n),
    decreases b.len() - i,
{
    if i < b.len() {
        lexical::lemma_lexeme_end(b, i);
        match lexical::lexeme_at(b, i) {
            Lexeme::Blank(end) => lemma_lexical_error(b, end),
            Lexeme::Token(token, end) => {
                lemma_lexical_error(b, end);
                if let Ok(rest) = lexical::tokens_from(b, end) {
                    let first = SpannedView { token, span: lexical::span_at(b, i) };
                    let t = seq![first] + rest;
                    assert forall|k: int| 0 <= k < t.len() implies exists|n: int|
                        0 <= n <= b.len() && (#[trigger] t[k]).span == #[trigger] lexical::span_at(
                            b,
                            n,
                        ) by {
                        if k > 0 {
                            assert(t[k] == rest[k - 1]);
                        }
                    }
                }
            },
            Lexeme::Bad(f) => {
                assert(lexical::error_at(b, f).span == lexical::span_at(b, f.offset));
            },
        }
    } else {
        assert(lexical::tokens_from(b, i)->Ok_0[0].span == lexical::span_at(b, i));
    }
}

/// Every error lies at a place of the source.
pub proof fn law_errors_lie_inside(b: Seq<u8>)
    ensures
        lexical::tokens(b) matches Err(e) ==> inside(b, e),
        syntax::program(b) matches Err(e) ==> inside(b, e),
        syntax::expression(b) matches Err(e) ==> inside(b, e),
{
    lemma_lexical_error(b, 0);
    lemma_no_early_eof(b, 0);
    if let Ok(t) = lexical::tokens(b) {
        let u = syntax::uncommented(t);
        comments::lemma_uncommented_ends(t);
        assert forall|e: ErrorView| #[trigger] soundness::at_token(u, e) implies inside(b, e) by {
            let k = choose|k: int| 0 <= k < u.len() && e.span == (#[trigger] u[k]).span;
            assert(t.contains(u[k]));
            let j = choose|j: int| 0 <= j < t.len() && t[j] == u[k];
            assert(t[j].span == e.span);
        }
        soundness::lemma_program_from(u, 0);
        soundness::lemma_expr(u, 0);
        if let Ok((_, q)) = syntax::expr(u, 0) {
            let e = syntax::fail(u, q, "unexpected trailing input"@);
            assert(e.span == u[q].span);
            assert(soundness::at_token(u, e));
        }
    }
}

// ---- Whitespace and comments ----

/// The tokens behind something that is skipped are those of what follows it.
proof fn lemma_skipped(s: Seq<u8>, rest: Seq<u8>)
    requires
        s.len() > 0,
        lexical::lexeme_at(s + rest, 0) == Lexeme::Blank(s.len() as int),
    ensures
        surroundings::kinds(lexical::tokens(s + rest)) == surroundings::kinds(
            lexical::tokens(rest),
        ),
{
    surroundings::lemma_tokens_after(s, rest, 0);
}

/// Whitespace makes no token.
pub proof fn law_whitespace_is_skipped(w: Seq<u8>, rest: Seq<u8>)
    requires
        forall|k: int| 0 <= k < w.len() ==> surroundings::is_whitespace(#[trigger] w[k]),
    ensures
        surroundings::kinds(lexical::tokens(w + rest)) == surroundings::kinds(
            lexical::tokens(rest),
        ),
    decreases w.len(),
{
    if w.len() == 0 {
        assert(w + rest =~= rest);
    } else {
        let first = seq![w[0]];
        let others = w.subrange(1, w.len() as int);
        law_whitespace_is_skipped(others, rest);
        assert(w + rest =~= first + (others + rest));
        lemma_skipped(first, others + rest);
    }
}

/// Where a run of bytes of a class ends.
pub proof fn lemma_run_of(b: Seq<u8>, i: int, end: int, class: ByteClass)
    requires
        0 <= i <= end <= b.len(),
        forall|k: int| i <= k < end ==> lexical::in_class(class, #[trigger] b[k]),
        end < b.len() ==> !lexical::in_class(class, b[end]),
    ensures
        lexical::run_end(b, i, class) == end,
    decreases end - i,
{
    if i < end {
        lemma_run_of(b, i + 1, end, class);
    }
}

/// A line comment, up to the end of its line, makes no token.
pub proof fn law_line_comment_is_skipped(comment: Seq<u8>, rest: Seq<u8>)
    requires
        forall|k: int| 0 <= k < comment.len() ==> #[trigger] comment[k] != NEWLINE,
        rest.len() > 0 ==> rest[0] == NEWLINE,
    ensures
        surroundings::kinds(lexical::tokens(seq![SEMICOLON] + comment + rest))
            == surroundings::kinds(lexical::tokens(rest)),
{
    let s = seq![SEMICOLON] + comment;
    let b = s + rest;
    assert forall|k: int| 0 <= k < s.len() implies lexical::in_class(
        ByteClass::NotNewline,
        #[trigger] b[k],
    ) by {
        if k > 0 {
            assert(b[k] == comment[k - 1]);
        }
    }
    lemma_run_of(b, 0, s.len() as int, ByteClass::NotNewline);
    lemma_skipped(s, rest);
}

/// Whether `s` is one whole block comment.
pub open spec fn is_block_comment(s: Seq<u8>) -> bool {
    &&& s.len() >= 2
    &&& s[0] == HASH
    &&& s[1] == BAR
    &&& lexical::block_comment_end(s, 2, 1) == Some(s.len() as int)
}

/// Whether a byte plays no part in the marks of block comments.
pub open spec fn is_plain(c: u8) -> bool {
    c != HASH && c != BAR
}

/// A comment that is closed in `s` is closed there whatever follows; and with
/// more levels around it, `s` closes all but these.
proof fn lemma_block_comment_part(s: Seq<u8>, rest: Seq<u8>, i: int, depth: nat, more: nat)
    requires
        0 <= i <= s.len(),
        lexical::block_comment_end(s, i, depth) == Some(s.len() as int),
        depth > 0,
    ensures
        lexical::block_comment_end(s + rest, i, depth + more) == lexical::block_comment_end(
            s + rest,
            s.len() as int,
            more,
        ),
    decreases s.len() - i,
{
    if s[i] == HASH && lexical::byte_at(s, i + 1) == Some(BAR) {
        lemma_block_comment_part(s, rest, i + 2, depth + 1, more);
    } else if s[i] == BAR && lexical::byte_at(s, i + 1) == Some(HASH) {
        if depth > 1 {
            lemma_block_comment_part(s, rest, i + 2, (depth - 1) as nat, more);
        }
    } else {
        if i + 1 == s.len() {
            assert(lexical::block_comment_end(s, i + 1, depth) is None);
        }
        lemma_block_comment_part(s, rest, i + 1, depth, more);
    }
}

/// A block comment makes no token.
pub proof fn law_block_comment_is_skipped(comment: Seq<u8>, rest: Seq<u8>)
    requires
        is_block_comment(comment),
    ensures
        surroundings::kinds(lexical::tokens(comment + rest)) == surroundings::kinds(
            lexical::tokens(rest),
        ),
{
    lemma_block_comment_part(comment, rest, 2, 1, 0);
    lemma_skipped(comment, rest);
}

proof fn lemma_plain_part(b: Seq<u8>, i: int, end: int, depth: nat)
    requires
        0 <= i <= end <= b.len(),
        depth > 0,
        forall|k: int| i <= k < end ==> is_plain(#[trigger] b[k]),
    ensures
        lexical::block_comment_end(b, i, depth) == lexical::block_comment_end(b, end, depth),
    decreases end - i,
{
    if i < end {
        lemma_plain_part(b, i + 1, end, depth);
    }
}

/// A block comment may hold another one, with plain text around it.
pub proof fn law_block_comments_nest(before: Seq<u8>, inner: Seq<u8>, after: Seq<u8>)
    requires
        is_block_comment(inner),
        forall|k: int| 0 <= k < before.len() ==> is_plain(#[trigger] before[k]),
        forall|k: int| 0 <= k < after.len() ==> is_plain(#[trigger] after[k]),
    ensures
        is_block_comment(seq![HASH, BAR] + before + inner + after + seq![BAR, HASH]),
{
    let open = seq![HASH, BAR] + before;
    let tail = after + seq![BAR, HASH];
    let b = seq![HASH, BAR] + before + inner + after + seq![BAR, HASH];
    let part = inner + tail;
    assert(b =~= open + part);
    let n = open.len() as int;
    assert forall|k: int| 2 <= k < n implies is_plain(#[trigger] b[k]) by {
        assert(b[k] == before[k - 2]);
    }
    lemma_plain_part(b, 2, n, 1);
    // The inner comment opens one level more.
    assert(b[n] == HASH && b[n + 1] == BAR);
    assert(lexical::block_comment_end(b, n, 1) == lexical::block_comment_end(b, n + 2, 2));
    surroundings::lemma_block_comment_after(open, part, 2, 2);
    lemma_block_comment_part(inner, tail, 2, 1, 1);
    // Behind it stands plain text, then the closing mark.
    let m = inner.len() as int;
    assert forall|k: int| m <= k < m + after.len() implies is_plain(#[trigger] part[k]) by {
        assert(part[k] == after[k - m]);
    }
    lemma_plain_part(part, m, m + after.len(), 1);
    let last = m + after.len();
    assert(part[last] == BAR && part[last + 1] == HASH);
    assert(lexical::block_comment_end(part, last, 1) == lexical::block_comment_end(
        part,
        last + 2,
        0,
    ));
}

/// A token before a terminator that does not join it is read by itself.
pub proof fn law_tokens_separate(s: Seq<u8>, token: TokenView, rest: Seq<u8>)
    requires
        surroundings::spells(s, token),
        surroundings::separate(rest),
        !surroundings::joins(s, rest),
    ensures
        surroundings::kinds(lexical::tokens(s + rest)) == surroundings::kind_before(
            token,
            surroundings::kinds(lexical::tokens(rest)),
        ),
{
    surroundings::lemma_token_before(s, rest);
    surroundings::lemma_tokens_after(s, rest, 0);
    surroundings::lemma_kinds_with(
        SpannedView { token, span: lexical::span_at(s + rest, 0) },
        lexical::tokens_from(s + rest, s.len() as int),
    );
}

/// A point by itself is a dotted-pair marker; as part of a larger token it is
/// not.
pub proof fn law_dot_stands_alone(b: Seq<u8>, i: int)
    requires
        0 <= i < b.len(),
    ensures
        lexical::lexeme_at(b, i) matches Lexeme::Token(TokenView::Dot, end) ==> end == i + 1,
        lexical::lexeme_at(b, i) == Lexeme::Token(TokenView::Dot, i + 1) <==> b[i]
            == POINT && lexical::symbol_terminator(lexical::byte_at(b, i + 1)),
{
}

// ---- Trees ----

/// Every body in what is parsed, at any depth, holds an expression.
pub proof fn law_bodies_hold_expressions(b: Seq<u8>)
    ensures
        syntax::program(b) matches Ok(forms) ==> soundness::full_forms(forms),
        syntax::expression(b) matches Ok(e) ==> soundness::full_expr(e),
{
    lemma_no_early_eof(b, 0);
    if let Ok(t) = lexical::tokens(b) {
        comments::lemma_uncommented_ends(t);
        soundness::lemma_program_from(syntax::uncommented(t), 0);
        soundness::lemma_expr(syntax::uncommented(t), 0);
    }
}

/// A lexical error is the error of the whole source.
pub proof fn law_lexical_errors_come_first(b: Seq<u8>)
    ensures
        lexical::tokens(b) matches Err(e) ==> {
            &&& syntax::program(b) == Err::<Seq<TopLevelFormView>, ErrorView>(e)
            &&& syntax::expression(b) == Err::<ExprView, ErrorView>(e)
        },
{
}

/// A source that holds nothing but whitespace and comments, datum comments
/// among them, is the empty program, and no expression.
pub proof fn law_empty_source(b: Seq<u8>)
    requires
        lexical::tokens(b) matches Ok(t) && surroundings::tokens_of(syntax::uncommented(t)) == seq![
            TokenView::Eof,
        ],
    ensures
        syntax::program(b) == Ok::<Seq<TopLevelFormView>, ErrorView>(Seq::empty()),
        syntax::expression(b) is Err,
{
    let u = syntax::uncommented(lexical::tokens(b)->Ok_0);
    assert(surroundings::tokens_of(u).len() == u.len());
    assert(surroundings::tokens_of(u)[0] is Eof);
}

/// A quote mark before a datum and the list of `quote` and that datum are the
/// same expression.
pub proof fn law_quote_mark(t: Seq<SpannedView>, p: int, d: DatumView, q: int)
    requires
        syntax::datum(t, p) == Ok::<_, ErrorView>((d, q)),
    ensures
        syntax::tok(t, p - 1) is Quote ==> syntax::expr(t, p - 1) == Ok::<_, ErrorView>(
            (ExprView::Quote(d), q),
        ),
        syntax::tok(t, p - 2) is LeftParen && syntax::is_symbol(t, p - 1, "quote"@)
            && syntax::tok(t, q) is RightParen ==> syntax::expr(t, p - 2) == Ok::<_, ErrorView>(
            (ExprView::Quote(d), q + 1),
        ),
{
    if syntax::tok(t, p - 2) is LeftParen && syntax::is_symbol(t, p - 1, "quote"@) {
        assert(syntax::list_expr(t, p - 1) == syntax::special_form(t, p, Form::Quote));
    }
}

/// What a mark of quotation abbreviates.
pub open spec fn abbreviated(token: TokenView) -> Option<Seq<char>> {
    match token {
        TokenView::Quote => Some("quote"@),
        TokenView::QuasiQuote => Some("quasiquote"@),
        TokenView::Unquote => Some("unquote"@),
        TokenView::UnquoteSplicing => Some("unquote-splicing"@),
        _ => None,
    }
}

/// The list of a symbol and a datum.
pub open spec fn pair_of(name: Seq<char>, d: DatumView) -> DatumView {
    DatumView::Pair(
        Box::new(DatumView::Symbol(name)),
        Box::new(DatumView::Pair(Box::new(d), Box::new(DatumView::Null))),
    )
}

/// Inside data a mark of quotation before a datum and the list of its name and
/// that datum are the same.
pub proof fn law_quotation_marks_in_data(
    t: Seq<SpannedView>,
    p: int,
    u: Seq<SpannedView>,
    r: int,
    name: Seq<char>,
    d: DatumView,
    q: int,
    s: int,
)
    requires
        soundness::ends(u),
        0 <= r < u.len(),
        abbreviated(syntax::tok(t, p)) == Some(name),
        syntax::datum(t, p + 1) == Ok::<_, ErrorView>((d, q)),
        syntax::tok(u, r) is LeftParen,
        syntax::is_symbol(u, r + 1, name),
        syntax::datum(u, r + 2) == Ok::<_, ErrorView>((d, s)),
        syntax::tok(u, s) is RightParen,
    ensures
        syntax::datum(t, p) == Ok::<_, ErrorView>((pair_of(name, d), q)),
        syntax::datum(u, r) == Ok::<_, ErrorView>((pair_of(name, d), s + 1)),
{
    soundness::lemma_datum(u, r + 2);
    assert(syntax::list_rest(u, s) == Ok::<_, ErrorView>((DatumView::Null, s)));
    assert(syntax::list_rest(u, r + 2) == Ok::<_, ErrorView>(
        (DatumView::Pair(Box::new(d), Box::new(DatumView::Null)), s),
    ));
    assert(syntax::datum(u, r + 1) == Ok::<_, ErrorView>((DatumView::Symbol(name), r + 2)));
    assert(syntax::list_rest(u, r + 1) is Ok);
}

/// An expression where a top-level form may stand is that form, unless it looks
/// like a definition or a splicing `begin`.
proof fn lemma_expression_form(t: Seq<SpannedView>, p: int, e: ExprView, q: int)
    requires
        soundness::ends(t),
        0 <= p < t.len(),
        syntax::expr(t, p) == Ok::<_, ErrorView>((e, q)),
        !writing::definition_like(e),
        !(e is Begin),
    ensures
        syntax::top_form(t, p) == Ok::<_, ErrorView>((TopLevelFormView::Expr(e), q)),
    decreases syntax::left(t, p),
{
    writing::lemma_keywords(Form::Begin);
    if syntax::tok(t, p) is DatumComment {
        soundness::lemma_datum(t, p + 1);
        let next = syntax::datum(t, p + 1)->Ok_0.1;
        lemma_expression_form(t, next, e, q);
    } else if syntax::at_definition(t, p) {
        assert(syntax::expr(t, p + 1) == Ok::<_, ErrorView>(
            (ExprView::Var(syntax::tok(t, p + 1)->Symbol_0), p + 2),
        ));
        assert(syntax::list_expr(t, p + 1) == syntax::application(t, p + 1));
    } else if syntax::tok(t, p) is LeftParen && syntax::is_symbol(t, p + 1, "begin"@) {
        assert(syntax::list_expr(t, p + 1) == syntax::special_form(t, p + 2, Form::Begin));
    }
}

/// A source that is one expression is the program of that expression, unless
/// it looks like a definition or a splicing `begin`.
pub proof fn law_program_of_one_expression(b: Seq<u8>, e: ExprView)
    requires
        syntax::expression(b) == Ok::<_, ErrorView>(e),
        !writing::definition_like(e),
        !(e is Begin),
    ensures
        syntax::program(b) == Ok::<_, ErrorView>(seq![TopLevelFormView::Expr(e)]),
{
    let t = syntax::uncommented(lexical::tokens(b)->Ok_0);
    let q = syntax::expr(t, 0)->Ok_0.1;
    lemma_no_early_eof(b, 0);
    comments::lemma_uncommented_ends(lexical::tokens(b)->Ok_0);
    lemma_expression_form(t, 0, e, q);
    soundness::lemma_top_form(t, 0);
    assert(syntax::program_from(t, q) == Ok::<_, ErrorView>(
        (Seq::<TopLevelFormView>::empty(), q),
    ));
    assert(seq![TopLevelFormView::Expr(e)] + Seq::empty() =~= seq![TopLevelFormView::Expr(e)]);
}

} // verus!
