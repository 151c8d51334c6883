//! What a lexeme depends on. What stands before it has no influence but on
//! positions; what stands behind it has none if it begins with a terminator.

use crate::ascii::{
    BACKSLASH, BAR, COMMA, DOUBLE_QUOTE, HASH, LOWER_E, LOWER_X, MINUS, NEWLINE, OPEN_PAREN,
    PLUS, POINT, RETURN, SEMICOLON, SPACE, TAB, UPPER_E,
};
use crate::lexical;
use crate::lexical::{ByteClass, ErrorView, Failure, Lexeme, Numeral, SpannedView, TokenView};
use vstd::prelude::*;

verus! {

/// A failure `n` bytes further on.
pub open spec fn failure_after(n: int, f: Failure) -> Failure {
    Failure { message: f.message, offset: n + f.offset }
}

/// The end of a phrase `n` bytes further on.
pub open spec fn end_after<T>(n: int, r: Result<(T, int), Failure>) -> Result<(T, int), Failure> {
    match r {
        Ok((v, end)) => Ok((v, n + end)),
        Err(f) => Err(failure_after(n, f)),
    }
}

/// A lexeme `n` bytes further on.
pub open spec fn lexeme_after(n: int, l: Lexeme) -> Lexeme {
    match l {
        Lexeme::Blank(end) => Lexeme::Blank(n + end),
        Lexeme::Token(token, end) => Lexeme::Token(token, n + end),
        Lexeme::Bad(f) => Lexeme::Bad(failure_after(n, f)),
    }
}

/// What the tokens of a source are, without their positions.
pub open spec fn kinds(r: Result<Seq<SpannedView>, ErrorView>) -> Result<
    Seq<TokenView>,
    Seq<char>,
> {
    match r {
        Ok(t) => Ok(tokens_of(t)),
        Err(e) => Err(e.message),
    }
}

/// Tokens without their positions.
pub open spec fn tokens_of(t: Seq<SpannedView>) -> Seq<TokenView> {
    Seq::new(t.len(), |k: int| t[k].token)
}

proof fn lemma_run_end_after(a: Seq<u8>, s: Seq<u8>, i: int, class: ByteClass)
    requires
        0 <= i,
    ensures
        lexical::run_end(a + s, a.len() + i, class) == a.len() + lexical::run_end(s, i, class),
    decreases s.len() - i,
{
    if i < s.len() && lexical::in_class(class, s[i]) {
        lemma_run_end_after(a, s, i + 1, class);
    }
}

proof fn lemma_part_after(a: Seq<u8>, s: Seq<u8>, i: int, j: int)
    requires
        0 <= i <= j <= s.len(),
    ensures
        (a + s).subrange(a.len() + i, a.len() + j) == s.subrange(i, j),
{
    assert((a + s).subrange(a.len() + i, a.len() + j) =~= s.subrange(i, j));
}

proof fn lemma_symbol_end_after(a: Seq<u8>, s: Seq<u8>, i: int)
    requires
        0 <= i <= s.len(),
    ensures
        lexical::symbol_end(a + s, a.len() + i) == (match lexical::symbol_end(s, i) {
            Ok(end) => Ok(a.len() + end),
            Err(f) => Err(failure_after(a.len() as int, f)),
        }),
    decreases s.len() - i,
{
    if lexical::symbol_terminator(lexical::byte_at(s, i)) {
    } else if s[i] == BACKSLASH && lexical::byte_at(s, i + 1) == Some(LOWER_X) {
        lemma_run_end_after(a, s, i + 2, ByteClass::NotSemicolon);
        lexical::lemma_run_end(s, i + 2, ByteClass::NotSemicolon);
        let semicolon = lexical::run_end(s, i + 2, ByteClass::NotSemicolon);
        if semicolon < s.len() {
            lemma_symbol_end_after(a, s, semicolon + 1);
        }
    } else {
        lemma_symbol_end_after(a, s, i + 1);
    }
}

proof fn lemma_symbol_after(a: Seq<u8>, s: Seq<u8>, i: int)
    requires
        0 <= i <= s.len(),
    ensures
        lexical::symbol_lexeme(a + s, a.len() + i) == lexeme_after(
            a.len() as int,
            lexical::symbol_lexeme(s, i),
        ),
{
    lemma_symbol_end_after(a, s, i);
    lexical::lemma_symbol_end(s, i);
    if let Ok(end) = lexical::symbol_end(s, i) {
        lemma_part_after(a, s, i, end);
    }
}

proof fn lemma_numeral_after(a: Seq<u8>, s: Seq<u8>, n: Numeral)
    requires
        0 <= n.end <= s.len(),
    ensures
        lexical::numeral_from(a + s, Numeral { end: a.len() + n.end, ..n }) == (Numeral {
            end: a.len() + lexical::numeral_from(s, n).end,
            ..lexical::numeral_from(s, n)
        }),
    decreases s.len() - n.end,
{
    match lexical::byte_at(s, n.end) {
        None => {},
        Some(c) => if lexical::is_digit(c) {
            lemma_numeral_after(a, s, Numeral { end: n.end + 1, digits: true, ..n });
        } else if c == POINT && !n.dot && !n.exponent {
            lemma_numeral_after(a, s, Numeral { end: n.end + 1, dot: true, ..n });
        } else if (c == LOWER_E || c == UPPER_E) && n.digits && !n.exponent {
            lemma_numeral_after(
                a,
                s,
                Numeral { end: lexical::sign_end(s, n.end + 1), exponent: true, ..n },
            );
        } else if c == HASH && n.digits {
            lemma_numeral_after(a, s, Numeral { end: n.end + 1, hash: true, ..n });
        },
    }
}

proof fn lemma_number_after(a: Seq<u8>, s: Seq<u8>, i: int)
    requires
        0 <= i < s.len(),
    ensures
        lexical::number_lexeme(a + s, a.len() + i) == lexeme_after(
            a.len() as int,
            lexical::number_lexeme(s, i),
        ),
{
    let start = Numeral {
        end: lexical::sign_end(s, i),
        digits: false,
        dot: false,
        exponent: false,
        hash: false,
    };
    lemma_numeral_after(a, s, start);
    lexical::lemma_numeral_from(s, start);
    lemma_part_after(a, s, i, lexical::numeral_at(s, i).end);
    lemma_symbol_after(a, s, i);
}

proof fn lemma_word_after(a: Seq<u8>, s: Seq<u8>, i: int, word: Seq<char>)
    requires
        0 <= i <= s.len(),
    ensures
        lexical::word_at(a + s, a.len() + i, word) == lexical::word_at(s, i, word),
{
    if i + word.len() <= s.len() {
        lemma_part_after(a, s, i, i + word.len());
    }
}

proof fn lemma_character_after(a: Seq<u8>, s: Seq<u8>, i: int)
    requires
        0 <= i <= s.len(),
    ensures
        lexical::character_at(a + s, a.len() + i) == end_after(
            a.len() as int,
            lexical::character_at(s, i),
        ),
{
    lemma_run_end_after(a, s, i, ByteClass::Letter);
    lexical::lemma_run_end(s, i, ByteClass::Letter);
    lemma_part_after(a, s, i, lexical::run_end(s, i, ByteClass::Letter));
}

/// Where a block comment ends is the same whatever stands before it.
pub proof fn lemma_block_comment_after(a: Seq<u8>, s: Seq<u8>, i: int, depth: nat)
    requires
        0 <= i,
    ensures
        lexical::block_comment_end(a + s, a.len() + i, depth) == (
        match lexical::block_comment_end(s, i, depth) {
            Some(end) => Some(a.len() + end),
            None => None,
        }),
    decreases s.len() - i,
{
    if depth == 0 || i >= s.len() {
    } else if s[i] == HASH && lexical::byte_at(s, i + 1) == Some(BAR) {
        lemma_block_comment_after(a, s, i + 2, depth + 1);
    } else if s[i] == BAR && lexical::byte_at(s, i + 1) == Some(HASH) {
        lemma_block_comment_after(a, s, i + 2, (depth - 1) as nat);
    } else {
        lemma_block_comment_after(a, s, i + 1, depth);
    }
}

proof fn lemma_escape_after(a: Seq<u8>, s: Seq<u8>, start: int, i: int)
    requires
        0 <= i <= s.len(),
    ensures
        lexical::escape_at(a + s, a.len() + start, a.len() + i) == end_after(
            a.len() as int,
            lexical::escape_at(s, start, i),
        ),
{
    if i < s.len() {
        lemma_run_end_after(a, s, i + 1, ByteClass::HexDigit);
        lexical::lemma_run_end(s, i + 1, ByteClass::HexDigit);
        lemma_part_after(a, s, i + 1, lexical::run_end(s, i + 1, ByteClass::HexDigit));
    }
}

/// The rest of a string literal is the same whatever stands before it.
pub proof fn lemma_string_after(a: Seq<u8>, s: Seq<u8>, start: int, i: int)
    requires
        0 <= i <= s.len(),
    ensures
        lexical::string_from(a + s, a.len() + start, a.len() + i) == end_after(
            a.len() as int,
            lexical::string_from(s, start, i),
        ),
    decreases s.len() - i,
{
    if i == s.len() || s[i] == DOUBLE_QUOTE {
    } else if s[i] == BACKSLASH {
        lemma_escape_after(a, s, start, i + 1);
        lexical::lemma_escape_end(s, start, i + 1);
        if let Ok((c, next)) = lexical::escape_at(s, start, i + 1) {
            lemma_string_after(a, s, start, next);
        }
    } else {
        lemma_string_after(a, s, start, i + 1);
    }
}

proof fn lemma_hash_after(a: Seq<u8>, s: Seq<u8>, i: int)
    requires
        0 <= i < s.len(),
    ensures
        lexical::hash_lexeme(a + s, a.len() + i) == lexeme_after(
            a.len() as int,
            lexical::hash_lexeme(s, i),
        ),
{
    let next = lexical::byte_at(s, i + 1);
    assert(lexical::byte_at(a + s, a.len() + i + 1) == next);
    lemma_block_comment_after(a, s, i + 2, 1);
    if next is Some {
        lemma_character_after(a, s, i + 2);
    }
    if i + 5 <= s.len() {
        lemma_part_after(a, s, i, i + 5);
    }
    lemma_word_after(a, s, i + 1, "true"@);
    lemma_word_after(a, s, i + 1, "false"@);
    lemma_word_after(a, s, i + 1, "t"@);
    lemma_word_after(a, s, i + 1, "f"@);
    assert(lexical::boolean_at(a + s, a.len() + i) == (match lexical::boolean_at(s, i) {
        Some((value, end)) => Some((value, a.len() + end)),
        None => None,
    }));
    lemma_symbol_after(a, s, i);
}

/// A lexeme is the same whatever stands before it.
pub proof fn lemma_lexeme_after(a: Seq<u8>, s: Seq<u8>, i: int)
    requires
        0 <= i < s.len(),
    ensures
        lexical::lexeme_at(a + s, a.len() + i) == lexeme_after(
            a.len() as int,
            lexical::lexeme_at(s, i),
        ),
{
    lemma_run_end_after(a, s, i, ByteClass::NotNewline);
    lemma_hash_after(a, s, i);
    lemma_string_after(a, s, i + 1, i + 1);
    lemma_number_after(a, s, i);
    lemma_symbol_after(a, s, i);
}

/// The tokens from some place on are the same whatever stands before it.
pub proof fn lemma_tokens_after(a: Seq<u8>, s: Seq<u8>, i: int)
    requires
        0 <= i <= s.len(),
    ensures
        kinds(lexical::tokens_from(a + s, a.len() + i)) == kinds(lexical::tokens_from(s, i)),
    decreases s.len() - i,
{
    if i < s.len() {
        lemma_lexeme_after(a, s, i);
        lexical::lemma_lexeme_end(s, i);
        match lexical::lexeme_at(s, i) {
            Lexeme::Blank(end) => lemma_tokens_after(a, s, end),
            Lexeme::Token(token, end) => {
                lemma_tokens_after(a, s, end);
                lemma_kinds_with(
                    SpannedView { token, span: lexical::span_at(s, i) },
                    lexical::tokens_from(s, end),
                );
                lemma_kinds_with(
                    SpannedView { token, span: lexical::span_at(a + s, a.len() + i) },
                    lexical::tokens_from(a + s, a.len() + end),
                );
            },
            Lexeme::Bad(f) => {},
        }
    } else {
        assert(tokens_of(lexical::tokens_from(a + s, a.len() + i)->Ok_0) =~= seq![TokenView::Eof]);
        assert(tokens_of(lexical::tokens_from(s, i)->Ok_0) =~= seq![TokenView::Eof]);
    }
}

/// One more token before the tokens behind it.
pub open spec fn kind_before(token: TokenView, rest: Result<Seq<TokenView>, Seq<char>>) -> Result<
    Seq<TokenView>,
    Seq<char>,
> {
    match rest {
        Ok(after) => Ok(seq![token] + after),
        Err(message) => Err(message),
    }
}

/// What a token before others is, without its position.
pub proof fn lemma_kinds_with(first: SpannedView, rest: Result<Seq<SpannedView>, ErrorView>)
    ensures
        kinds(lexical::with_tokens(seq![first], rest)) == kind_before(first.token, kinds(rest)),
{
    if let Ok(after) = rest {
        assert(tokens_of(seq![first] + after) =~= seq![first.token] + tokens_of(after));
    }
}

// ---- What stands behind ----

/// Whether `r` is empty or begins with a terminator.
pub open spec fn separate(r: Seq<u8>) -> bool {
    lexical::symbol_terminator(lexical::byte_at(r, 0))
}

/// Whether `s` and what follows make one token together though `r` begins with
/// a terminator: `#` with `(` or `;`, and `#vu8` with `(`.
pub open spec fn joins(s: Seq<u8>, r: Seq<u8>) -> bool {
    ||| s == seq![HASH] && r.len() > 0 && (r[0] == OPEN_PAREN || r[0] == SEMICOLON)
    ||| lexical::bytevector_prefix_at(s + r, 0) && s.len() == 4
}

/// Whether `s` is one token by itself.
pub open spec fn spells(s: Seq<u8>, token: TokenView) -> bool {
    s.len() > 0 && lexical::lexeme_at(s, 0) == Lexeme::Token(token, s.len() as int)
}

proof fn lemma_run_end_before(s: Seq<u8>, r: Seq<u8>, i: int, class: ByteClass)
    requires
        0 <= i <= s.len(),
        lexical::run_end(s, i, class) < s.len() || r.len() == 0 || !lexical::in_class(class, r[0]),
    ensures
        lexical::run_end(s + r, i, class) == lexical::run_end(s, i, class),
    decreases s.len() - i,
{
    if i < s.len() && lexical::in_class(class, s[i]) {
        lemma_run_end_before(s, r, i + 1, class);
    }
}

proof fn lemma_part_before(s: Seq<u8>, r: Seq<u8>, i: int, j: int)
    requires
        0 <= i <= j <= s.len(),
    ensures
        (s + r).subrange(i, j) == s.subrange(i, j),
{
    assert((s + r).subrange(i, j) =~= s.subrange(i, j));
}

proof fn lemma_symbol_end_before(s: Seq<u8>, r: Seq<u8>, i: int)
    requires
        0 <= i <= s.len(),
        separate(r),
        lexical::symbol_end(s, i) is Ok,
    ensures
        lexical::symbol_end(s + r, i) == lexical::symbol_end(s, i),
    decreases s.len() - i,
{
    if i == s.len() {
        assert(lexical::byte_at(s + r, i) == lexical::byte_at(r, 0));
    } else if lexical::symbol_terminator(lexical::byte_at(s, i)) {
    } else if s[i] == BACKSLASH && lexical::byte_at(s, i + 1) == Some(LOWER_X) {
        lexical::lemma_run_end(s, i + 2, ByteClass::NotSemicolon);
        lemma_run_end_before(s, r, i + 2, ByteClass::NotSemicolon);
        lemma_symbol_end_before(
            s,
            r,
            lexical::run_end(s, i + 2, ByteClass::NotSemicolon) + 1,
        );
    } else {
        if i + 1 == s.len() {
            assert(lexical::byte_at(s + r, i + 1) == lexical::byte_at(r, 0));
        }
        lemma_symbol_end_before(s, r, i + 1);
    }
}

proof fn lemma_symbol_before(s: Seq<u8>, r: Seq<u8>)
    requires
        separate(r),
        lexical::symbol_lexeme(s, 0) is Token,
    ensures
        lexical::symbol_lexeme(s + r, 0) == lexical::symbol_lexeme(s, 0),
{
    lemma_symbol_end_before(s, r, 0);
    lexical::lemma_symbol_end(s, 0);
    lemma_part_before(s, r, 0, lexical::symbol_end(s, 0)->Ok_0);
}

proof fn lemma_numeral_before(s: Seq<u8>, r: Seq<u8>, n: Numeral)
    requires
        0 <= n.end <= s.len(),
        separate(r),
    ensures
        lexical::numeral_from(s + r, n) == lexical::numeral_from(s, n),
    decreases s.len() - n.end,
{
    match lexical::byte_at(s, n.end) {
        None => {
            assert(lexical::byte_at(s + r, n.end) == lexical::byte_at(r, 0));
        },
        Some(c) => if lexical::is_digit(c) {
            lemma_numeral_before(s, r, Numeral { end: n.end + 1, digits: true, ..n });
        } else if c == POINT && !n.dot && !n.exponent {
            lemma_numeral_before(s, r, Numeral { end: n.end + 1, dot: true, ..n });
        } else if (c == LOWER_E || c == UPPER_E) && n.digits && !n.exponent {
            if n.end + 1 == s.len() {
                assert(lexical::byte_at(s + r, n.end + 1) == lexical::byte_at(r, 0));
            }
            lemma_numeral_before(
                s,
                r,
                Numeral { end: lexical::sign_end(s, n.end + 1), exponent: true, ..n },
            );
        } else if c == HASH && n.digits {
            lemma_numeral_before(s, r, Numeral { end: n.end + 1, hash: true, ..n });
        },
    }
}

proof fn lemma_number_before(s: Seq<u8>, r: Seq<u8>)
    requires
        s.len() > 0,
        separate(r),
        lexical::number_lexeme(s, 0) is Token,
    ensures
        lexical::number_lexeme(s + r, 0) == lexical::number_lexeme(s, 0),
{
    let start = Numeral {
        end: lexical::sign_end(s, 0),
        digits: false,
        dot: false,
        exponent: false,
        hash: false,
    };
    lemma_numeral_before(s, r, start);
    lexical::lemma_numeral_from(s, start);
    lemma_part_before(s, r, 0, lexical::numeral_at(s, 0).end);
    if s.len() == 1 {
        assert(lexical::byte_at(s + r, 1) == lexical::byte_at(r, 0));
    }
    if lexical::symbol_lexeme(s, 0) is Token {
        lemma_symbol_before(s, r);
    }
}

proof fn lemma_escape_before(s: Seq<u8>, r: Seq<u8>, start: int, i: int)
    requires
        0 <= i <= s.len(),
        lexical::escape_at(s, start, i) is Ok,
    ensures
        lexical::escape_at(s + r, start, i) == lexical::escape_at(s, start, i),
{
    lexical::lemma_run_end(s, i + 1, ByteClass::HexDigit);
    if lexical::simple_escape(s[i]) is None {
        lemma_run_end_before(s, r, i + 1, ByteClass::HexDigit);
        lemma_part_before(s, r, i + 1, lexical::run_end(s, i + 1, ByteClass::HexDigit));
    }
}

proof fn lemma_string_before(s: Seq<u8>, r: Seq<u8>, start: int, i: int)
    requires
        0 <= i <= s.len(),
        lexical::string_from(s, start, i) is Ok,
    ensures
        lexical::string_from(s + r, start, i) == lexical::string_from(s, start, i),
    decreases s.len() - i,
{
    if s[i] == DOUBLE_QUOTE {
    } else if s[i] == BACKSLASH {
        lemma_escape_before(s, r, start, i + 1);
        lexical::lemma_escape_end(s, start, i + 1);
        lemma_string_before(s, r, start, lexical::escape_at(s, start, i + 1)->Ok_0.1);
    } else {
        lemma_string_before(s, r, start, i + 1);
    }
}

proof fn lemma_word_before(s: Seq<u8>, r: Seq<u8>, word: Seq<char>)
    requires
        s.len() >= 1,
        separate(r),
    ensures
        lexical::word_at(s, 1, word) ==> lexical::word_at(s + r, 1, word),
        1 + word.len() <= s.len() ==> lexical::word_at(s + r, 1, word) == lexical::word_at(
            s,
            1,
            word,
        ),
{
    if 1 + word.len() <= s.len() {
        lemma_part_before(s, r, 1, (1 + word.len()) as int);
    }
}

proof fn lemma_boolean_before(s: Seq<u8>, r: Seq<u8>)
    requires
        s.len() >= 1,
        separate(r),
    ensures
        lexical::boolean_at(s + r, 0) == lexical::boolean_at(s, 0),
{
    reveal_strlit("true");
    reveal_strlit("false");
    reveal_strlit("t");
    reveal_strlit("f");
    lemma_word_before(s, r, "true"@);
    lemma_word_before(s, r, "false"@);
    lemma_word_before(s, r, "t"@);
    lemma_word_before(s, r, "f"@);
    let b = s + r;
    assert(lexical::byte_at(b, s.len() as int) == lexical::byte_at(r, 0));
    if s.len() < 6 {
        assert(!lexical::word_at(b, 1, "false"@)) by {
            if lexical::word_at(b, 1, "false"@) {
                assert(crate::text::byte_text(b.subrange(1, 6))[s.len() - 1] == "false"@[s.len()
                    - 1]);
            }
        }
    }
    if s.len() < 5 {
        assert(!lexical::word_at(b, 1, "true"@)) by {
            if lexical::word_at(b, 1, "true"@) {
                assert(crate::text::byte_text(b.subrange(1, 5))[s.len() - 1] == "true"@[s.len()
                    - 1]);
            }
        }
    }
    if s.len() < 2 {
        assert(!lexical::word_at(b, 1, "t"@)) by {
            if lexical::word_at(b, 1, "t"@) {
                assert(crate::text::byte_text(b.subrange(1, 2))[0] == "t"@[0]);
            }
        }
        assert(!lexical::word_at(b, 1, "f"@)) by {
            if lexical::word_at(b, 1, "f"@) {
                assert(crate::text::byte_text(b.subrange(1, 2))[0] == "f"@[0]);
            }
        }
    }
}

proof fn lemma_prefix_before(s: Seq<u8>, r: Seq<u8>)
    requires
        s.len() >= 1,
        separate(r),
        !joins(s, r),
    ensures
        lexical::bytevector_prefix_at(s + r, 0) == lexical::bytevector_prefix_at(s, 0),
{
    if s.len() >= 5 {
        lemma_part_before(s, r, 0, 5);
    } else if lexical::bytevector_prefix_at(s + r, 0) {
        reveal_strlit("#vu8(");
        let k = s.len() as int;
        assert(lexical::byte_at(s + r, k) == lexical::byte_at(r, 0));
        assert(crate::text::byte_text(lexical::lower_all((s + r).subrange(0, 5)))[k]
            == "#vu8("@[k]);
    }
}

proof fn lemma_hash_before(s: Seq<u8>, r: Seq<u8>)
    requires
        s.len() >= 1,
        s[0] == HASH,
        separate(r),
        !joins(s, r),
        lexical::hash_lexeme(s, 0) is Token,
    ensures
        lexical::hash_lexeme(s + r, 0) == lexical::hash_lexeme(s, 0),
{
    lemma_boolean_before(s, r);
    lemma_prefix_before(s, r);
    if s.len() == 1 {
        assert(s =~= seq![HASH]);
        assert(lexical::byte_at(s + r, 1) == lexical::byte_at(r, 0));
        if lexical::symbol_lexeme(s, 0) is Token {
            lemma_symbol_before(s, r);
        }
    } else if s[1] == BACKSLASH {
        lexical::lemma_run_end(s, 2, ByteClass::Letter);
        lemma_run_end_before(s, r, 2, ByteClass::Letter);
        lemma_part_before(s, r, 2, lexical::run_end(s, 2, ByteClass::Letter));
    } else if lexical::symbol_lexeme(s, 0) is Token {
        lemma_symbol_before(s, r);
    }
}

/// A token stays itself before a terminator that does not join it.
pub proof fn lemma_token_before(s: Seq<u8>, r: Seq<u8>)
    requires
        s.len() > 0,
        lexical::lexeme_at(s, 0) is Token,
        separate(r),
        !joins(s, r),
    ensures
        lexical::lexeme_at(s + r, 0) == lexical::lexeme_at(s, 0),
{
    let c = s[0];
    assert((s + r)[0] == c);
    if c == HASH {
        lemma_hash_before(s, r);
    } else if c == COMMA {
        if s.len() == 1 {
            assert(lexical::byte_at(s + r, 1) == lexical::byte_at(r, 0));
        }
    } else if c == DOUBLE_QUOTE {
        lemma_string_before(s, r, 1, 1);
    } else if lexical::is_digit(c) || c == PLUS || c == MINUS || c == POINT {
        lemma_number_before(s, r);
    } else if lexical::symbol_lexeme(s, 0) is Token {
        lemma_symbol_before(s, r);
    }
}

pub open spec fn is_whitespace(c: u8) -> bool {
    c == SPACE || c == TAB || c == RETURN || c == NEWLINE
}

/// Whitespace separates, and joins nothing.
pub proof fn lemma_whitespace_separates(s: Seq<u8>, r: Seq<u8>)
    requires
        s.len() > 0,
        r.len() > 0,
        is_whitespace(r[0]),
    ensures
        separate(r),
        !joins(s, r),
{
    if lexical::bytevector_prefix_at(s + r, 0) && s.len() == 4 {
        reveal_strlit("#vu8(");
        assert((s + r)[4] == r[0]);
        assert(crate::text::byte_text(lexical::lower_all((s + r).subrange(0, 5)))[4]
            == "#vu8("@[4]);
    }
}

proof fn lemma_block_comment_before(s: Seq<u8>, r: Seq<u8>, i: int, depth: nat)
    requires
        0 <= i <= s.len(),
        lexical::block_comment_end(s, i, depth) is Some,
    ensures
        lexical::block_comment_end(s + r, i, depth) == lexical::block_comment_end(s, i, depth),
    decreases s.len() - i,
{
    if depth == 0 {
    } else if s[i] == HASH && lexical::byte_at(s, i + 1) == Some(BAR) {
        lemma_block_comment_before(s, r, i + 2, depth + 1);
    } else if s[i] == BAR && lexical::byte_at(s, i + 1) == Some(HASH) {
        lemma_block_comment_before(s, r, i + 2, (depth - 1) as nat);
    } else {
        if i + 1 == s.len() {
            assert(lexical::block_comment_end(s, i + 1, depth) is None);
        }
        lemma_block_comment_before(s, r, i + 1, depth);
    }
}

/// What stands at one place of a source stands there too with a new line
/// behind the source, unless it is an error.
proof fn lemma_lexeme_before(s: Seq<u8>, r: Seq<u8>)
    requires
        s.len() > 0,
        r.len() > 0,
        r[0] == NEWLINE,
        !(lexical::lexeme_at(s, 0) is Bad),
    ensures
        lexical::lexeme_at(s + r, 0) == lexical::lexeme_at(s, 0),
{
    if lexical::lexeme_at(s, 0) is Token {
        lemma_whitespace_separates(s, r);
        lemma_token_before(s, r);
    } else {
        assert((s + r)[0] == s[0]);
        if s[0] == SEMICOLON {
            lemma_run_end_before(s, r, 0, ByteClass::NotNewline);
        } else if s[0] == HASH {
            lemma_block_comment_before(s, r, 2, 1);
        }
    }
}

/// Tokens before the tokens behind them.
pub open spec fn kinds_before(
    before: Seq<TokenView>,
    rest: Result<Seq<TokenView>, Seq<char>>,
) -> Result<Seq<TokenView>, Seq<char>> {
    match rest {
        Ok(after) => Ok(before + after),
        Err(message) => Err(message),
    }
}

/// The tokens of a source with a new line and more behind it: those of the
/// source, without the end of input, and those of what follows.
pub proof fn lemma_tokens_before(a: Seq<u8>, r: Seq<u8>, i: int)
    requires
        0 <= i <= a.len(),
        r.len() > 0,
        r[0] == NEWLINE,
        lexical::tokens_from(a, i) is Ok,
    ensures
        kinds(lexical::tokens_from(a + r, i)) == kinds_before(
            tokens_of(lexical::tokens_from(a, i)->Ok_0).drop_last(),
            kinds(lexical::tokens(r)),
        ),
    decreases a.len() - i,
{
    if i == a.len() {
        lemma_tokens_after(a, r, 0);
        let none = tokens_of(lexical::tokens_from(a, i)->Ok_0).drop_last();
        assert(none =~= Seq::empty());
        if let Ok(after) = kinds(lexical::tokens(r)) {
            assert(none + after =~= after);
        }
    } else {
        lemma_lexeme_before_at(a, r, i);
        lexical::lemma_lexeme_end(a, i);
        match lexical::lexeme_at(a, i) {
            Lexeme::Blank(end) => lemma_tokens_before(a, r, end),
            Lexeme::Token(token, end) => {
                lemma_tokens_before(a, r, end);
                lemma_some_token(a, end);
                lemma_kinds_with(
                    SpannedView { token, span: lexical::span_at(a, i) },
                    lexical::tokens_from(a, end),
                );
                lemma_kinds_with(
                    SpannedView { token, span: lexical::span_at(a + r, i) },
                    lexical::tokens_from(a + r, end),
                );
                lemma_kind_then_kinds(
                    token,
                    tokens_of(lexical::tokens_from(a, end)->Ok_0),
                    kinds(lexical::tokens(r)),
                );
            },
            Lexeme::Bad(f) => {},
        }
    }
}

proof fn lemma_kind_then_kinds(
    token: TokenView,
    ks: Seq<TokenView>,
    rest: Result<Seq<TokenView>, Seq<char>>,
)
    requires
        ks.len() > 0,
    ensures
        kind_before(token, kinds_before(ks.drop_last(), rest)) == kinds_before(
            (seq![token] + ks).drop_last(),
            rest,
        ),
{
    assert((seq![token] + ks).drop_last() =~= seq![token] + ks.drop_last());
    if let Ok(after) = rest {
        assert(seq![token] + (ks.drop_last() + after) =~= (seq![token] + ks.drop_last()) + after);
    }
}

proof fn lemma_lexeme_before_at(a: Seq<u8>, r: Seq<u8>, i: int)
    requires
        0 <= i < a.len(),
        r.len() > 0,
        r[0] == NEWLINE,
        !(lexical::lexeme_at(a, i) is Bad),
    ensures
        lexical::lexeme_at(a + r, i) == lexical::lexeme_at(a, i),
{
    let pre = a.subrange(0, i);
    let s = a.subrange(i, a.len() as int);
    assert(a =~= pre + s);
    assert(a + r =~= pre + (s + r));
    lemma_lexeme_after(pre, s, 0);
    lemma_lexeme_after(pre, s + r, 0);
    lemma_lexeme_before(s, r);
}

/// There is always a token.
proof fn lemma_some_token(b: Seq<u8>, i: int)
    requires
        0 <= i <= b.len(),
    ensures
        lexical::tokens_from(b, i) matches Ok(t) ==> t.len() > 0,
    decreases b.len() - i,
{
    if i < b.len() {
        lexical::lemma_lexeme_end(b, i);
        if let Lexeme::Blank(end) = lexical::lexeme_at(b, i) {
            lemma_some_token(b, end);
        }
    }
}

} // verus!
