//! Numbers by their parts: which texts are numbers, and which numbers they are.

use crate::ascii::{
    APOSTROPHE, BACKQUOTE, BACKSLASH, CLOSE_PAREN, COMMA, DIGIT_0, DOUBLE_QUOTE, HASH, LOWER_E,
    MINUS, NEWLINE, OPEN_PAREN, PLUS, POINT, RETURN, SEMICOLON, SPACE, TAB, UPPER_E,
};
use crate::laws;
use crate::lexical;
use crate::lexical::{ByteClass, Lexeme, Numeral, TokenView};
use crate::model::NumberView;
use crate::spelling;
use crate::surroundings;
use crate::text;
use vstd::prelude::*;
use vstd::utf8::encode_utf8;

verus! {

// ---- Decimal literals ----

/// The parts of a decimal literal, in their order.
pub struct Decimal {
    pub sign: Seq<u8>,
    pub whole: Seq<u8>,
    pub point: Seq<u8>,
    pub fraction: Seq<u8>,
    pub mark: Seq<u8>,
    pub exponent_sign: Seq<u8>,
    pub exponent: Seq<u8>,
}

/// Whether `c` is one of the digits `0` to `9`.
pub open spec fn is_figure(c: u8) -> bool {
    0x30 <= c <= 0x39
}

pub open spec fn all_figures(s: Seq<u8>) -> bool {
    forall|k: int| 0 <= k < s.len() ==> is_figure(#[trigger] s[k])
}

/// Whether `s` is empty, `+` or `-`.
pub open spec fn is_sign(s: Seq<u8>) -> bool {
    s == Seq::<u8>::empty() || s == seq![PLUS] || s == seq![MINUS]
}

/// Whether the parts make a decimal literal: an optional sign; digits, of which
/// there is at least one, with an optional point among, before or behind them;
/// and an optional exponent: `e` or `E`, an optional sign, and at least one
/// digit.
pub open spec fn is_decimal(d: Decimal) -> bool {
    &&& is_sign(d.sign)
    &&& all_figures(d.whole)
    &&& d.point == seq![POINT] || d.point == Seq::<u8>::empty() && d.fraction == Seq::<u8>::empty()
    &&& all_figures(d.fraction)
    &&& d.whole.len() + d.fraction.len() > 0
    &&& {
        ||| d.mark == Seq::<u8>::empty() && d.exponent_sign == Seq::<u8>::empty() && d.exponent
            == Seq::<u8>::empty()
        ||| (d.mark == seq![LOWER_E] || d.mark == seq![UPPER_E]) && is_sign(d.exponent_sign)
            && all_figures(d.exponent) && d.exponent.len() > 0
    }
}

/// A decimal literal as text.
pub open spec fn decimal_text(d: Decimal) -> Seq<u8> {
    d.sign + d.whole + d.point + d.fraction + d.mark + d.exponent_sign + d.exponent
}

/// Whether a literal has neither a point nor an exponent.
pub open spec fn is_bare(d: Decimal) -> bool {
    d.point.len() == 0 && d.mark.len() == 0
}

/// Whether a literal does not go on with what follows it: no digit and no `#`,
/// no point unless it has one or an exponent, and no exponent mark unless it has
/// an exponent.
pub open spec fn stops(d: Decimal, rest: Seq<u8>) -> bool {
    rest.len() == 0 || {
        &&& !is_figure(rest[0])
        &&& rest[0] != HASH
        &&& rest[0] == POINT ==> !is_bare(d)
        &&& rest[0] == LOWER_E || rest[0] == UPPER_E ==> d.mark.len() > 0
    }
}

/// Where the parts of a literal end.
proof fn lemma_parts(d: Decimal, rest: Seq<u8>)
    requires
        is_decimal(d),
    ensures
        ({
            let b = decimal_text(d) + rest;
            let a0 = d.sign.len() as int;
            let a1 = a0 + d.whole.len();
            let a2 = a1 + d.point.len();
            let a3 = a2 + d.fraction.len();
            let a4 = a3 + d.mark.len();
            let a5 = a4 + d.exponent_sign.len();
            let a6 = a5 + d.exponent.len();
            &&& a6 == decimal_text(d).len()
            &&& forall|k: int| 0 <= k < a0 ==> #[trigger] b[k] == d.sign[k]
            &&& forall|k: int| a0 <= k < a1 ==> is_figure(#[trigger] b[k])
            &&& forall|k: int| a1 <= k < a2 ==> #[trigger] b[k] == POINT
            &&& forall|k: int| a2 <= k < a3 ==> is_figure(#[trigger] b[k])
            &&& forall|k: int| a3 <= k < a4 ==> #[trigger] b[k] == d.mark[k - a3]
            &&& forall|k: int| a4 <= k < a5 ==> #[trigger] b[k] == d.exponent_sign[k - a4]
            &&& forall|k: int| a5 <= k < a6 ==> is_figure(#[trigger] b[k])
            &&& forall|k: int| a6 <= k < b.len() ==> #[trigger] b[k] == rest[k - a6]
            &&& lexical::sign_end(b, 0) == a0
            &&& a3 < a4 ==> lexical::sign_end(b, a4) == a5
        }),
{
    let b = decimal_text(d) + rest;
    let a0 = d.sign.len() as int;
    let a1 = a0 + d.whole.len();
    let a2 = a1 + d.point.len();
    let a3 = a2 + d.fraction.len();
    let a4 = a3 + d.mark.len();
    let a5 = a4 + d.exponent_sign.len();
    let a6 = a5 + d.exponent.len();
    assert forall|k: int| a0 <= k < a1 implies is_figure(#[trigger] b[k]) by {
        assert(b[k] == d.whole[k - a0]);
    }
    assert forall|k: int| a2 <= k < a3 implies is_figure(#[trigger] b[k]) by {
        assert(b[k] == d.fraction[k - a2]);
    }
    assert forall|k: int| a5 <= k < a6 implies is_figure(#[trigger] b[k]) by {
        assert(b[k] == d.exponent[k - a5]);
    }
    if a0 == 0 {
        assert(a1 > 0 ==> is_figure(b[0]));
    }
    if a3 < a4 && a4 == a5 {
        assert(is_figure(b[a4]));
    }
}

/// A numeral follows a whole decimal literal, and stops where that does.
proof fn lemma_numeral(d: Decimal, rest: Seq<u8>)
    requires
        is_decimal(d),
        stops(d, rest),
    ensures
        lexical::numeral_at(decimal_text(d) + rest, 0) == (Numeral {
            end: decimal_text(d).len() as int,
            digits: true,
            dot: d.point.len() > 0,
            exponent: d.mark.len() > 0,
            hash: false,
        }),
{
    let b = decimal_text(d) + rest;
    lemma_parts(d, rest);
    let a0 = d.sign.len() as int;
    let a1 = a0 + d.whole.len();
    let a2 = a1 + d.point.len();
    let a3 = a2 + d.fraction.len();
    let a4 = a3 + d.mark.len();
    let a5 = a4 + d.exponent_sign.len();
    let a6 = a5 + d.exponent.len();
    let start = Numeral { end: a0, digits: false, dot: false, exponent: false, hash: false };
    spelling::lemma_numeral_digits(b, start, a1);
    let first = Numeral { end: a1, digits: a0 < a1, ..start };
    let second = Numeral { end: a2, dot: a1 < a2, ..first };
    if a1 < a2 {
        assert(b[a1] == POINT);
        assert(lexical::numeral_from(b, first) == lexical::numeral_from(b, second));
    }
    spelling::lemma_numeral_digits(b, second, a3);
    let third = Numeral { end: a3, digits: true, ..second };
    let fourth = Numeral { end: a5, exponent: a3 < a4, ..third };
    if a3 < a4 {
        assert(b[a3] == d.mark[0]);
        assert(lexical::numeral_from(b, third) == lexical::numeral_from(b, fourth));
    }
    spelling::lemma_numeral_digits(b, fourth, a6);
    let last = Numeral { end: a6, digits: true, ..fourth };
    if rest.len() > 0 {
        assert(b[a6] == rest[0]);
    }
    assert(lexical::numeral_from(b, last) == last);
}

/// A decimal literal begins with a sign, a digit or a point, and the point with a
/// digit behind it.
pub proof fn lemma_first_byte(d: Decimal, rest: Seq<u8>)
    requires
        is_decimal(d),
    ensures
        ({
            let b = decimal_text(d) + rest;
            &&& decimal_text(d).len() > 0
            &&& b[0] == PLUS || b[0] == MINUS || is_figure(b[0]) || b[0] == POINT
            &&& b[0] == POINT ==> decimal_text(d).len() > 1 && is_figure(b[1])
        }),
{
    let b = decimal_text(d) + rest;
    lemma_parts(d, rest);
    let a0 = d.sign.len() as int;
    let a1 = a0 + d.whole.len();
    let a2 = a1 + d.point.len();
    if a0 > 0 {
        assert(b[0] == d.sign[0]);
    } else if a1 > 0 {
        assert(is_figure(b[0]));
    } else {
        assert(b[0] == POINT);
        assert(is_figure(b[a2]));
    }
}

/// The text of a decimal literal is one.
proof fn lemma_syntax(d: Decimal)
    requires
        is_decimal(d),
    ensures
        lexical::decimal_syntax(decimal_text(d)),
{
    let s = decimal_text(d);
    lemma_parts(d, Seq::empty());
    assert(s + Seq::empty() =~= s);
    let a0 = d.sign.len() as int;
    let a1 = a0 + d.whole.len();
    let a2 = a1 + d.point.len();
    let a3 = a2 + d.fraction.len();
    let a4 = a3 + d.mark.len();
    let a5 = a4 + d.exponent_sign.len();
    let a6 = a5 + d.exponent.len();
    if a3 < a4 {
        assert(s[a3] == d.mark[0]);
    }
    laws::lemma_run_of(s, a0, a1, ByteClass::Digit);
    laws::lemma_run_of(s, a2, a3, ByteClass::Digit);
    laws::lemma_run_of(s, a5, a6, ByteClass::Digit);
    if a1 < a2 {
        assert(s[a1] == POINT);
    }
}

/// A decimal literal with a point or an exponent, of any length, is read as the
/// inexact number with that text, up to where it stops.
pub proof fn law_decimal_literals(d: Decimal, rest: Seq<u8>)
    requires
        is_decimal(d),
        !is_bare(d),
        stops(d, rest),
    ensures
        lexical::lexeme_at(decimal_text(d) + rest, 0) == Lexeme::Token(
            TokenView::Number(NumberView::Flonum(text::byte_text(decimal_text(d)))),
            decimal_text(d).len() as int,
        ),
        surroundings::spells(
            decimal_text(d),
            TokenView::Number(NumberView::Flonum(text::byte_text(decimal_text(d)))),
        ),
{
    lemma_decimal_literal(d, rest);
    lemma_decimal_literal(d, Seq::empty());
    assert(decimal_text(d) + Seq::empty() =~= decimal_text(d));
}

proof fn lemma_decimal_literal(d: Decimal, rest: Seq<u8>)
    requires
        is_decimal(d),
        !is_bare(d),
        stops(d, rest),
    ensures
        lexical::lexeme_at(decimal_text(d) + rest, 0) == Lexeme::Token(
            TokenView::Number(NumberView::Flonum(text::byte_text(decimal_text(d)))),
            decimal_text(d).len() as int,
        ),
{
    let s = decimal_text(d);
    let b = s + rest;
    lemma_parts(d, rest);
    lemma_numeral(d, rest);
    lemma_syntax(d);
    assert(b.subrange(0, s.len() as int) =~= s);
    let a0 = d.sign.len() as int;
    let a1 = a0 + d.whole.len();
    let a2 = a1 + d.point.len();
    if a0 > 0 {
        assert(b[0] == d.sign[0]);
    } else if a1 > 0 {
        assert(is_figure(b[0]));
    } else {
        assert(b[0] == POINT);
        assert(is_figure(b[a2]));
    }
}

// ---- Bare digits ----

/// Zeros.
pub open spec fn zeros(k: nat) -> Seq<u8> {
    Seq::new(k, |i: int| DIGIT_0)
}

/// Zeros before digits do not change their value.
proof fn lemma_leading_zeros(k: nat, s: Seq<u8>)
    ensures
        lexical::digits_value(zeros(k) + s) == lexical::digits_value(s),
    decreases k + s.len(),
{
    let z = zeros(k) + s;
    if s.len() > 0 {
        lemma_leading_zeros(k, s.drop_last());
        assert(z.drop_last() =~= zeros(k) + s.drop_last());
    } else if k > 0 {
        lemma_leading_zeros((k - 1) as nat, s);
        assert(z.drop_last() =~= zeros((k - 1) as nat) + s);
        assert(z.last() == DIGIT_0);
    } else {
        assert(z =~= s);
    }
}

/// Digits, with or without a sign and with any number of zeros before them, are
/// the exact integer that they write in decimal, up to where they stop. An
/// integer outside the range of `i64` is read as an inexact number instead.
pub proof fn law_bare_digits(sign: Seq<u8>, k: nat, n: nat, rest: Seq<u8>)
    requires
        is_sign(sign),
        rest.len() > 0 ==> !is_figure(rest[0]) && rest[0] != POINT && rest[0] != LOWER_E && rest[0]
            != UPPER_E && rest[0] != HASH,
    ensures
        ({
            let s = sign + zeros(k) + spelling::digits(n);
            let value = if sign == seq![MINUS] {
                -n
            } else {
                n as int
            };
            lexical::lexeme_at(s + rest, 0) == Lexeme::Token(
                TokenView::Number(
                    if i64::MIN <= value <= i64::MAX {
                        NumberView::Fixnum(value)
                    } else {
                        NumberView::Flonum(text::byte_text(s))
                    },
                ),
                s.len() as int,
            )
        }),
{
    spelling::lemma_digits(n);
    let whole = zeros(k) + spelling::digits(n);
    let none = Seq::<u8>::empty();
    let d = Decimal {
        sign,
        whole,
        point: none,
        fraction: none,
        mark: none,
        exponent_sign: none,
        exponent: none,
    };
    let s = sign + zeros(k) + spelling::digits(n);
    assert(decimal_text(d) =~= s);
    assert(all_figures(whole));
    lemma_parts(d, rest);
    lemma_numeral(d, rest);
    lemma_syntax(d);
    let b = s + rest;
    assert(b.subrange(0, s.len() as int) =~= s);
    lemma_leading_zeros(k, spelling::digits(n));
    lemma_parts(d, none);
    assert(s + none =~= s);
    assert(s.subrange(sign.len() as int, s.len() as int) =~= whole);
    if sign.len() > 0 {
        assert(b[0] == sign[0] && s[0] == sign[0]);
    } else {
        assert(b[0] == whole[0] && s[0] == whole[0]);
        assert(is_figure(whole[0]));
    }
}

// ---- All numbers ----

/// Two parts of a text, one behind the other.
proof fn lemma_join(s: Seq<u8>, i: int, j: int)
    requires
        0 <= i <= j <= s.len(),
    ensures
        s.subrange(0, i) + s.subrange(i, j) == s.subrange(0, j),
{
    assert(s.subrange(0, i) + s.subrange(i, j) =~= s.subrange(0, j));
}

/// Part of a run of digits.
proof fn lemma_figures(s: Seq<u8>, i: int)
    requires
        0 <= i <= s.len(),
    ensures
        i <= lexical::run_end(s, i, ByteClass::Digit) <= s.len(),
        all_figures(s.subrange(i, lexical::run_end(s, i, ByteClass::Digit))),
{
    lexical::lemma_run_end(s, i, ByteClass::Digit);
    let end = lexical::run_end(s, i, ByteClass::Digit);
    let part = s.subrange(i, end);
    assert forall|k: int| 0 <= k < part.len() implies is_figure(#[trigger] part[k]) by {
        assert(part[k] == s[i + k]);
        assert(lexical::in_class(ByteClass::Digit, s[i + k]));
    }
}

/// The parts of a text that is a decimal literal.
proof fn lemma_parts_of(s: Seq<u8>) -> (d: Decimal)
    requires
        lexical::decimal_syntax(s),
    ensures
        is_decimal(d),
        decimal_text(d) == s,
        is_bare(d) <==> lexical::run_end(s, lexical::sign_end(s, 0), ByteClass::Digit) == s.len(),
{
    let none = Seq::<u8>::empty();
    let a0 = lexical::sign_end(s, 0);
    lemma_figures(s, a0);
    let a1 = lexical::run_end(s, a0, ByteClass::Digit);
    let a2 = if lexical::byte_at(s, a1) == Some(POINT) {
        a1 + 1
    } else {
        a1
    };
    lemma_figures(s, a2);
    let a3 = lexical::run_end(s, a2, ByteClass::Digit);
    if a1 == a2 {
        lexical::lemma_run_end(s, a0, ByteClass::Digit);
        assert(a3 == a2);
    }
    let a4 = if a3 < s.len() {
        a3 + 1
    } else {
        a3
    };
    let a5 = if a3 < s.len() {
        lexical::sign_end(s, a4)
    } else {
        a3
    };
    if a3 < s.len() {
        lemma_figures(s, a5);
    }
    let d = Decimal {
        sign: s.subrange(0, a0),
        whole: s.subrange(a0, a1),
        point: s.subrange(a1, a2),
        fraction: s.subrange(a2, a3),
        mark: s.subrange(a3, a4),
        exponent_sign: s.subrange(a4, a5),
        exponent: s.subrange(a5, s.len() as int),
    };
    assert(decimal_text(d) == s) by {
        lemma_join(s, a0, a1);
        lemma_join(s, a1, a2);
        lemma_join(s, a2, a3);
        lemma_join(s, a3, a4);
        lemma_join(s, a4, a5);
        lemma_join(s, a5, s.len() as int);
        assert(s.subrange(0, s.len() as int) =~= s);
    }
    assert(is_sign(d.sign)) by {
        if a0 == 0 {
            assert(d.sign =~= none);
        } else {
            assert(d.sign =~= seq![s[0]]);
        }
    }
    assert(is_sign(d.exponent_sign)) by {
        if a4 == a5 {
            assert(d.exponent_sign =~= none);
        } else {
            assert(d.exponent_sign =~= seq![s[a4]]);
        }
    }
    if a1 == a2 {
        assert(d.point =~= none);
        assert(d.fraction =~= none);
    } else {
        assert(d.point =~= seq![POINT]);
    }
    if a3 == s.len() {
        assert(d.mark =~= none);
        assert(d.exponent_sign =~= none);
        assert(d.exponent =~= none);
    } else {
        assert(d.mark =~= seq![s[a3]]);
    }
    d
}

/// The text of every number that is read is a decimal literal. It is exact only
/// if it has neither a point nor an exponent.
pub proof fn law_numbers_are_decimal_literals(b: Seq<u8>, i: int, n: NumberView, end: int)
    requires
        0 <= i < b.len(),
        lexical::lexeme_at(b, i) == Lexeme::Token(TokenView::Number(n), end),
    ensures
        exists|d: Decimal|
            is_decimal(d) && #[trigger] decimal_text(d) == b.subrange(i, end) && (n is Fixnum
                ==> is_bare(d)),
        n matches NumberView::Flonum(x) ==> x == text::byte_text(b.subrange(i, end)),
{
    let s = b.subrange(i, end);
    if n is Fixnum {
        lemma_bare_numeral(b, i);
        let first = lexical::sign_end(b, i);
        let none = Seq::<u8>::empty();
        let d = Decimal {
            sign: b.subrange(i, first),
            whole: b.subrange(first, end),
            point: none,
            fraction: none,
            mark: none,
            exponent_sign: none,
            exponent: none,
        };
        if first == i {
            assert(d.sign =~= none);
        } else {
            assert(d.sign =~= seq![b[i]]);
        }
        assert(decimal_text(d) =~= s);
        assert(is_decimal(d));
    } else {
        let d = lemma_parts_of(s);
        assert(decimal_text(d) == s);
    }
}

/// A numeral without point, exponent and `#` is digits behind its sign.
proof fn lemma_bare_numeral(b: Seq<u8>, i: int)
    requires
        0 <= i < b.len(),
        lexical::numeral_at(b, i).digits,
        !lexical::numeral_at(b, i).dot,
        !lexical::numeral_at(b, i).exponent,
        !lexical::numeral_at(b, i).hash,
    ensures
        lexical::sign_end(b, i) < lexical::numeral_at(b, i).end <= b.len(),
        forall|k: int|
            lexical::sign_end(b, i) <= k < lexical::numeral_at(b, i).end ==> is_figure(
                #[trigger] b[k],
            ),
{
    let start = Numeral {
        end: lexical::sign_end(b, i),
        digits: false,
        dot: false,
        exponent: false,
        hash: false,
    };
    lexical::lemma_numeral_from(b, start);
    lemma_bare_from(b, start);
}

proof fn lemma_bare_from(b: Seq<u8>, n: Numeral)
    requires
        0 <= n.end <= b.len(),
    ensures
        n.dot ==> lexical::numeral_from(b, n).dot,
        n.exponent ==> lexical::numeral_from(b, n).exponent,
        n.hash ==> lexical::numeral_from(b, n).hash,
        ({
            let m = lexical::numeral_from(b, n);
            !m.dot && !m.exponent && !m.hash ==> forall|k: int|
                n.end <= k < m.end ==> is_figure(#[trigger] b[k])
        }),
    decreases b.len() - n.end,
{
    match lexical::byte_at(b, n.end) {
        None => {},
        Some(c) => if lexical::is_digit(c) {
            lemma_bare_from(b, Numeral { end: n.end + 1, digits: true, ..n });
        } else if c == POINT && !n.dot && !n.exponent {
            lemma_bare_from(b, Numeral { end: n.end + 1, dot: true, ..n });
        } else if (c == LOWER_E || c == UPPER_E) && n.digits && !n.exponent {
            lemma_bare_from(
                b,
                Numeral { end: lexical::sign_end(b, n.end + 1), exponent: true, ..n },
            );
        } else if c == HASH && n.digits {
            lemma_bare_from(b, Numeral { end: n.end + 1, hash: true, ..n });
        },
    }
}

// ---- Symbols ----

/// Whether no byte of `s` ends a symbol or begins an escape in one.
pub open spec fn is_word(s: Seq<u8>) -> bool {
    &&& s.len() > 0
    &&& forall|k: int|
        0 <= k < s.len() ==> {
            let c = #[trigger] s[k];
            &&& c != SPACE && c != TAB && c != RETURN && c != NEWLINE
            &&& c != OPEN_PAREN && c != CLOSE_PAREN && c != DOUBLE_QUOTE && c != SEMICOLON
            &&& c != APOSTROPHE && c != BACKQUOTE && c != COMMA && c != BACKSLASH
        }
}

/// Whether `s` begins like a number: a digit, behind an optional sign and an
/// optional point.
pub open spec fn begins_like_number(s: Seq<u8>) -> bool {
    let k = if s.len() > 0 && (s[0] == PLUS || s[0] == MINUS) {
        1int
    } else {
        0
    };
    ||| k < s.len() && is_figure(s[k])
    ||| k + 1 < s.len() && s[k] == POINT && is_figure(s[k + 1])
}

/// What does not begin like a number is none.
pub proof fn lemma_no_digits(s: Seq<u8>)
    requires
        !begins_like_number(s),
    ensures
        lexical::number_at(s, 0) is None,
{
    let start = Numeral {
        end: lexical::sign_end(s, 0),
        digits: false,
        dot: false,
        exponent: false,
        hash: false,
    };
    if start.end < s.len() && s[start.end] == POINT {
        let point = Numeral { end: start.end + 1, dot: true, ..start };
        assert(lexical::numeral_from(s, start) == lexical::numeral_from(s, point));
        assert(lexical::numeral_from(s, point) == point);
    } else {
        assert(lexical::numeral_from(s, start) == start);
    }
}

/// A word that begins with no `#` and not like a number, and is no single point,
/// is the symbol of that name.
pub proof fn law_words_are_symbols(name: Seq<char>)
    requires
        is_word(encode_utf8(name)),
        encode_utf8(name)[0] != HASH,
        encode_utf8(name) != seq![POINT],
        !begins_like_number(encode_utf8(name)),
    ensures
        surroundings::spells(encode_utf8(name), TokenView::Symbol(name)),
{
    let s = encode_utf8(name);
    lemma_no_digits(s);
    assert(spelling::is_plain_symbol(s));
    spelling::law_spellings_are_read_back(TokenView::Symbol(name));
}

/// Whether what follows a decimal literal makes it no number: `#`, or an
/// exponent mark with no digit behind it and its optional sign.
pub open spec fn breaks(d: Decimal, rest: Seq<u8>) -> bool {
    &&& rest.len() > 0
    &&& {
        ||| rest[0] == HASH
        ||| {
            let k = if rest.len() > 1 && (rest[1] == PLUS || rest[1] == MINUS) {
                2int
            } else {
                1
            };
            &&& rest[0] == LOWER_E || rest[0] == UPPER_E
            &&& d.mark.len() == 0
            &&& !(k < rest.len() && is_figure(rest[k]))
        }
    }
}

/// A decimal literal that does not stop well is no number.
pub proof fn lemma_broken(d: Decimal, rest: Seq<u8>)
    requires
        is_decimal(d),
        breaks(d, rest),
    ensures
        lexical::number_at(decimal_text(d) + rest, 0) is None,
{
    let b = decimal_text(d) + rest;
    lemma_parts(d, rest);
    let a0 = d.sign.len() as int;
    let a1 = a0 + d.whole.len();
    let a2 = a1 + d.point.len();
    let a3 = a2 + d.fraction.len();
    let a4 = a3 + d.mark.len();
    let a5 = a4 + d.exponent_sign.len();
    let a6 = a5 + d.exponent.len();
    let m = lexical::numeral_at(b, 0);
    let next = lemma_broken_numeral(d, rest);
    let s = b.subrange(0, m.end);
    assert(b[a6] == rest[0]);
    assert(lexical::sign_end(s, 0) == a0);
    laws::lemma_run_of(s, a0, a1, ByteClass::Digit);
    if a1 < a2 {
        assert(s[a1] == POINT);
        laws::lemma_run_of(s, a2, a3, ByteClass::Digit);
    }
    if a3 < a4 {
        assert(s[a3] == d.mark[0]);
        assert(lexical::sign_end(s, a4) == a5);
        laws::lemma_run_of(s, a5, a6, ByteClass::Digit);
    } else if rest[0] != HASH {
        let k = lexical::sign_end(s, a3 + 1);
        assert(rest.len() > 1 ==> b[a6 + 1] == rest[1]);
        assert(rest.len() > 2 ==> b[a6 + 2] == rest[2]);
        assert(k == next.end);
        if k < s.len() {
            assert(!is_figure(s[k]));
            laws::lemma_run_of(s, k, k, ByteClass::Digit);
        }
    }
    assert(!lexical::decimal_syntax(s));
}

/// The numeral goes on over what makes it no number.
proof fn lemma_broken_numeral(d: Decimal, rest: Seq<u8>) -> (next: Numeral)
    requires
        is_decimal(d),
        breaks(d, rest),
    ensures
        ({
            let b = decimal_text(d) + rest;
            let m = lexical::numeral_at(b, 0);
            let a6 = decimal_text(d).len() as int;
            &&& a6 < next.end <= m.end <= b.len()
            &&& m.hash || m.exponent
            &&& rest[0] != HASH ==> next.end == lexical::sign_end(b, a6 + 1)
        }),
{
    let b = decimal_text(d) + rest;
    lemma_parts(d, rest);
    let a0 = d.sign.len() as int;
    let a1 = a0 + d.whole.len();
    let a2 = a1 + d.point.len();
    let a3 = a2 + d.fraction.len();
    let a4 = a3 + d.mark.len();
    let a5 = a4 + d.exponent_sign.len();
    let a6 = a5 + d.exponent.len();
    let start = Numeral { end: a0, digits: false, dot: false, exponent: false, hash: false };
    spelling::lemma_numeral_digits(b, start, a1);
    let first = Numeral { end: a1, digits: a0 < a1, ..start };
    let second = Numeral { end: a2, dot: a1 < a2, ..first };
    if a1 < a2 {
        assert(b[a1] == POINT);
        assert(lexical::numeral_from(b, first) == lexical::numeral_from(b, second));
    }
    spelling::lemma_numeral_digits(b, second, a3);
    let third = Numeral { end: a3, digits: true, ..second };
    let fourth = Numeral { end: a5, exponent: a3 < a4, ..third };
    if a3 < a4 {
        assert(b[a3] == d.mark[0]);
        assert(lexical::numeral_from(b, third) == lexical::numeral_from(b, fourth));
    }
    spelling::lemma_numeral_digits(b, fourth, a6);
    let last = Numeral { end: a6, digits: true, ..fourth };
    assert(b[a6] == rest[0]);
    let next = if rest[0] == HASH {
        Numeral { end: a6 + 1, hash: true, ..last }
    } else {
        Numeral { end: lexical::sign_end(b, a6 + 1), exponent: true, ..last }
    };
    assert(lexical::numeral_from(b, last) == lexical::numeral_from(b, next));
    lexical::lemma_numeral_from(b, next);
    lemma_bare_from(b, next);
    next
}

/// A word that goes on behind a decimal literal with `#`, or with an exponent
/// mark that lacks its digits, is the symbol of that name.
pub proof fn law_broken_numbers_are_symbols(d: Decimal, rest: Seq<u8>, name: Seq<char>)
    requires
        is_decimal(d),
        breaks(d, rest),
        decimal_text(d) + rest == encode_utf8(name),
        is_word(encode_utf8(name)),
    ensures
        surroundings::spells(encode_utf8(name), TokenView::Symbol(name)),
{
    let s = encode_utf8(name);
    lemma_parts(d, rest);
    lemma_broken(d, rest);
    assert(s[0] != HASH) by {
        if d.sign.len() > 0 {
            assert(s[0] == d.sign[0]);
        } else if d.whole.len() > 0 {
            assert(is_figure(s[0]));
        } else {
            assert(s[0] == POINT);
        }
    }
    assert(s.len() > 1);
    assert(spelling::is_plain_symbol(s));
    spelling::law_spellings_are_read_back(TokenView::Symbol(name));
}

} // verus!
