//! Where tokens and errors lie: lines and columns count newlines and bytes, and
//! every token carries the place where it stands.

use crate::ascii::NEWLINE;
use crate::lexical;
use crate::lexical::{Failure, Lexeme, SpannedView};
use crate::surroundings;
use vstd::prelude::*;

verus! {

// ---- Lines and columns ----

/// How many newlines a text holds.
pub open spec fn newline_count(s: Seq<u8>) -> nat {
    s.filter(|c: u8| c == 0x0A).len()
}

/// The smaller of a count and the largest `u32`.
pub open spec fn at_most_u32(n: int) -> int {
    if n < u32::MAX {
        n
    } else {
        u32::MAX as int
    }
}

proof fn lemma_newlines(b: Seq<u8>, n: int)
    requires
        0 <= n <= b.len(),
    ensures
        lexical::newlines(b, n) == newline_count(b.take(n)),
    decreases n,
{
    let f = |c: u8| c == 0x0A;
    let s = b.take(n);
    reveal(Seq::filter);
    if n > 0 {
        lemma_newlines(b, n - 1);
        assert(s.drop_last() =~= b.take(n - 1));
        assert(s.last() == b[n - 1]);
        assert(s.filter(f) == if f(s.last()) {
            s.drop_last().filter(f).push(s.last())
        } else {
            s.drop_last().filter(f)
        });
    } else {
        assert(s.filter(f).len() == 0);
    }
}

proof fn lemma_line_start(b: Seq<u8>, k: int, n: int)
    requires
        0 <= k <= n <= b.len(),
        k == 0 || b[k - 1] == NEWLINE,
        forall|j: int| k <= j < n ==> #[trigger] b[j] != NEWLINE,
    ensures
        lexical::line_start(b, n) == k,
    decreases n - k,
{
    if k < n {
        assert(b[n - 1] != NEWLINE);
        lemma_line_start(b, k, n - 1);
    }
}

/// The position of an offset holds the offset; its line is one more than the
/// number of newlines before it; and its column is one more than the number of
/// bytes between it and the last newline before it, or the start of the source
/// if there is none. Lines and columns beyond the largest `u32` are that number.
pub proof fn law_positions_count(b: Seq<u8>, k: int, n: int)
    requires
        0 <= k <= n <= b.len() <= usize::MAX,
        k == 0 || b[k - 1] == 0x0A,
        forall|j: int| k <= j < n ==> #[trigger] b[j] != 0x0A,
    ensures
        lexical::span_at(b, n).offset == n,
        lexical::span_at(b, n).line == at_most_u32((newline_count(b.take(n)) + 1) as int),
        lexical::span_at(b, n).column == at_most_u32(n - k + 1),
        b.len() < u32::MAX ==> lexical::span_at(b, n).line - 1 == newline_count(b.take(n)),
        b.len() < u32::MAX ==> lexical::span_at(b, n).column - 1 == n - k,
{
    lemma_newlines(b, n);
    lemma_line_start(b, k, n);
    lexical::lemma_position(b, n);
}

/// A source begins at line one, column one. Behind a newline the line is one
/// further and the column is one again; behind any other byte the line is the
/// same and the column one further.
pub proof fn law_positions_advance(b: Seq<u8>, n: int)
    requires
        0 <= n < b.len() < u32::MAX,
    ensures
        lexical::span_at(b, 0).line == 1,
        lexical::span_at(b, 0).column == 1,
        lexical::span_at(b, 0).offset == 0,
        b[n] == 0x0A ==> lexical::span_at(b, n + 1).line == lexical::span_at(b, n).line + 1,
        b[n] == 0x0A ==> lexical::span_at(b, n + 1).column == 1,
        b[n] != 0x0A ==> lexical::span_at(b, n + 1).line == lexical::span_at(b, n).line,
        b[n] != 0x0A ==> lexical::span_at(b, n + 1).column == lexical::span_at(b, n).column + 1,
        lexical::span_at(b, n + 1).offset == lexical::span_at(b, n).offset + 1,
{
    lexical::lemma_position(b, n);
    lexical::lemma_position(b, n + 1);
}

// ---- Tokens and errors ----

/// What stands at a place of a source depends on what follows there, not on what
/// stands before it, but for the place itself.
pub proof fn law_lexemes_stand_anywhere(before: Seq<u8>, s: Seq<u8>, i: int)
    requires
        0 <= i < s.len(),
    ensures
        match lexical::lexeme_at(s, i) {
            Lexeme::Blank(end) => lexical::lexeme_at(before + s, before.len() + i)
                == Lexeme::Blank(before.len() + end),
            Lexeme::Token(token, end) => lexical::lexeme_at(before + s, before.len() + i)
                == Lexeme::Token(token, before.len() + end),
            Lexeme::Bad(f) => lexical::lexeme_at(before + s, before.len() + i) == Lexeme::Bad(
                Failure { message: f.message, offset: before.len() + f.offset },
            ),
        },
{
    surroundings::lemma_lexeme_after(before, s, i);
}

/// Whether the bytes from `i` to `j` are whitespace and comments.
pub open spec fn is_blank(b: Seq<u8>, i: int, j: int) -> bool
    decreases j - i,
{
    i == j || (i < j && (lexical::lexeme_at(b, i) matches Lexeme::Blank(end) && i < end <= j
        && is_blank(b, end, j)))
}

/// Whether the tokens `t` are those of the source from `i` on: each stands at
/// its offset, and between one token and the next there is nothing but
/// whitespace and comments, as before the first one and behind the last.
pub open spec fn stand_in_turn(b: Seq<u8>, i: int, t: Seq<SpannedView>) -> bool
    decreases t.len(),
{
    &&& t.len() > 0
    &&& is_blank(b, i, t[0].span.offset as int)
    &&& t[0].span == lexical::span_at(b, t[0].span.offset as int)
    &&& if t.len() == 1 {
        t[0].token is Eof && t[0].span.offset == b.len()
    } else {
        &&& t[0].span.offset < b.len()
        &&& lexical::lexeme_at(b, t[0].span.offset as int) matches Lexeme::Token(token, end)
            && token == t[0].token && stand_in_turn(b, end, t.drop_first())
    }
}

proof fn lemma_stand_in_turn(b: Seq<u8>, i: int)
    requires
        0 <= i <= b.len() <= usize::MAX,
    ensures
        lexical::tokens_from(b, i) matches Ok(t) ==> stand_in_turn(b, i, t),
    decreases b.len() - i,
{
    if i < b.len() {
        lexical::lemma_lexeme_end(b, i);
        match lexical::lexeme_at(b, i) {
            Lexeme::Blank(end) => {
                lemma_stand_in_turn(b, end);
                if let Ok(t) = lexical::tokens_from(b, end) {
                    lemma_first_offset(b, end);
                    assert(is_blank(b, i, t[0].span.offset as int));
                }
            },
            Lexeme::Token(token, end) => {
                lemma_stand_in_turn(b, end);
                if let Ok(rest) = lexical::tokens_from(b, end) {
                    let first = SpannedView { token, span: lexical::span_at(b, i) };
                    assert((seq![first] + rest).drop_first() =~= rest);
                    assert(rest.len() > 0);
                }
            },
            Lexeme::Bad(f) => {},
        }
    }
}

proof fn lemma_first_offset(b: Seq<u8>, i: int)
    requires
        0 <= i <= b.len() <= usize::MAX,
    ensures
        lexical::tokens_from(b, i) matches Ok(t) ==> t.len() > 0 && i <= t[0].span.offset,
    decreases b.len() - i,
{
    if i < b.len() {
        lexical::lemma_lexeme_end(b, i);
        if let Lexeme::Blank(end) = lexical::lexeme_at(b, i) {
            lemma_first_offset(b, end);
        }
    }
}

/// The tokens of a source stand in it one behind the other, each at its offset,
/// with whitespace and comments between them, and the end of input at its end.
pub proof fn law_tokens_stand_in_turn(b: Seq<u8>)
    requires
        b.len() <= usize::MAX,
    ensures
        lexical::tokens(b) matches Ok(t) ==> stand_in_turn(b, 0, t),
{
    lemma_stand_in_turn(b, 0);
}

/// Whether the source from `i` to `j` is tokens, whitespace and comments.
pub open spec fn is_sound(b: Seq<u8>, i: int, j: int) -> bool
    decreases j - i,
{
    i == j || (i < j && match lexical::lexeme_at(b, i) {
        Lexeme::Blank(end) => i < end <= j && is_sound(b, end, j),
        Lexeme::Token(_, end) => i < end <= j && is_sound(b, end, j),
        Lexeme::Bad(_) => false,
    })
}

/// Whether the first thing in the source from `i` on that is no token, no
/// whitespace and no comment stands at `j`.
pub open spec fn goes_wrong_at(b: Seq<u8>, i: int, j: int) -> bool {
    is_sound(b, i, j) && 0 <= j < b.len() && lexical::lexeme_at(b, j) is Bad
}

proof fn lemma_goes_wrong(b: Seq<u8>, i: int)
    requires
        0 <= i <= b.len(),
    ensures
        lexical::tokens_from(b, i) matches Err(e) ==> exists|j: int|
            #[trigger] goes_wrong_at(b, i, j) && i <= j && e.message == lexical::lexeme_at(
                b,
                j,
            )->Bad_0.message && e.span == lexical::span_at(
                b,
                lexical::lexeme_at(b, j)->Bad_0.offset,
            ),
    decreases b.len() - i,
{
    if i < b.len() {
        lexical::lemma_lexeme_end(b, i);
        match lexical::lexeme_at(b, i) {
            Lexeme::Blank(end) | Lexeme::Token(_, end) => {
                lemma_goes_wrong(b, end);
                if let Err(e) = lexical::tokens_from(b, end) {
                    let j = choose|j: int|
                        #[trigger] goes_wrong_at(b, end, j) && end <= j && e.message
                            == lexical::lexeme_at(b, j)->Bad_0.message && e.span
                            == lexical::span_at(b, lexical::lexeme_at(b, j)->Bad_0.offset);
                    assert(goes_wrong_at(b, i, j));
                }
            },
            Lexeme::Bad(f) => {
                assert(goes_wrong_at(b, i, i));
            },
        }
    }
}

/// A source that is rejected for its tokens is so for the first thing in it that
/// is none, with the message and the place of that.
pub proof fn law_first_lexical_error(b: Seq<u8>)
    ensures
        lexical::tokens(b) matches Err(e) ==> exists|j: int|
            #[trigger] goes_wrong_at(b, 0, j) && e.message == lexical::lexeme_at(
                b,
                j,
            )->Bad_0.message && e.span == lexical::span_at(
                b,
                lexical::lexeme_at(b, j)->Bad_0.offset,
            ),
{
    lemma_goes_wrong(b, 0);
}

} // verus!
