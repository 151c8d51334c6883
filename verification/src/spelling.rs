//! How tokens are written, and that the lexer reads them back.
//!
//! [`spelling`] gives one way to write a token. Not every token has one: a
//! character literal reaches only ASCII, and a symbol is written as it stands.

use crate::ascii::{
    APOSTROPHE, AT_SIGN, BACKQUOTE, BACKSLASH, CLOSE_PAREN, COMMA, DIGIT_0, DOUBLE_QUOTE, HASH,
    LOWER_A, LOWER_F, LOWER_T, LOWER_X, LOWER_Z, MINUS, OPEN_PAREN, POINT, SEMICOLON, SPACE,
};
use crate::laws;
use crate::lexical;
use crate::lexical::{ByteClass, Numeral, TokenView};
use crate::model::NumberView;
use crate::surroundings;
use crate::text;
use vstd::prelude::*;
use vstd::utf8::{encode_utf8, encode_utf8_decode_utf8, encode_utf8_valid_utf8};

verus! {

// ---- Spellings ----

/// The decimal digits of a number.
pub open spec fn digits(n: nat) -> Seq<u8>
    decreases n,
{
    if n < 10 {
        seq![(DIGIT_0 + n) as u8]
    } else {
        digits(n / 10).push((DIGIT_0 + n % 10) as u8)
    }
}

/// An integer in decimal.
pub open spec fn integer(n: int) -> Seq<u8> {
    if n < 0 {
        seq![MINUS] + digits((-n) as nat)
    } else {
        digits(n as nat)
    }
}

/// Whether `s` is a decimal literal for an inexact number: one with a point or
/// an exponent, or one whose value is no `i64`.
pub open spec fn is_inexact(s: Seq<u8>) -> bool {
    &&& lexical::decimal_syntax(s)
    &&& lexical::run_end(s, lexical::sign_end(s, 0), ByteClass::Digit) < s.len() || !(i64::MIN
        <= lexical::integer_value(s) <= i64::MAX)
}

/// The hexadecimal digit with a value.
pub open spec fn hex_digit(v: nat) -> u8 {
    if v < 10 {
        (DIGIT_0 + v) as u8
    } else {
        (LOWER_A + v - 10) as u8
    }
}

/// The hexadecimal digits of a number.
pub open spec fn hex_digits(n: nat) -> Seq<u8>
    decreases n,
{
    if n < 16 {
        seq![hex_digit(n)]
    } else {
        hex_digits(n / 16).push(hex_digit(n % 16))
    }
}

/// A character inside a string literal: ASCII as it stands, but for the quote
/// and the backslash, and all else by a hex escape.
pub open spec fn escaped_char(c: char) -> Seq<u8> {
    if c == '"' {
        seq![BACKSLASH, DOUBLE_QUOTE]
    } else if c == '\\' {
        seq![BACKSLASH, BACKSLASH]
    } else if (c as int) < 128 {
        seq![c as u8]
    } else {
        seq![BACKSLASH, LOWER_X] + hex_digits(c as nat) + seq![SEMICOLON]
    }
}

/// The characters of a string inside its literal.
pub open spec fn escaped(s: Seq<char>) -> Seq<u8>
    decreases s.len(),
{
    if s.len() == 0 {
        Seq::empty()
    } else {
        escaped_char(s[0]) + escaped(s.subrange(1, s.len() as int))
    }
}

/// A string literal.
pub open spec fn string_literal(s: Seq<char>) -> Seq<u8> {
    seq![DOUBLE_QUOTE] + escaped(s) + seq![DOUBLE_QUOTE]
}

/// Whether a symbol can be written as it stands: it holds no terminator and no
/// backslash, does not begin with `#`, and does not read as a number or a dot.
pub open spec fn is_plain_symbol(s: Seq<u8>) -> bool {
    &&& s.len() > 0
    &&& forall|k: int|
        0 <= k < s.len() ==> !lexical::symbol_terminator(Some(#[trigger] s[k])) && s[k]
            != BACKSLASH
    &&& s[0] != HASH
    &&& s != seq![POINT]
    &&& lexical::number_at(s, 0) is None
}

/// The bytes of an ASCII text.
pub open spec fn ascii_bytes(s: Seq<char>) -> Seq<u8> {
    Seq::new(s.len(), |i: int| s[i] as u8)
}

pub open spec fn is_ascii(s: Seq<char>) -> bool {
    forall|i: int| 0 <= i < s.len() ==> (#[trigger] s[i] as int) < 128
}

/// One way to write a token, where there is one.
pub open spec fn spelling(token: TokenView) -> Option<Seq<u8>> {
    match token {
        TokenView::LeftParen => Some(seq![OPEN_PAREN]),
        TokenView::RightParen => Some(seq![CLOSE_PAREN]),
        TokenView::Dot => Some(seq![POINT]),
        TokenView::Quote => Some(seq![APOSTROPHE]),
        TokenView::QuasiQuote => Some(seq![BACKQUOTE]),
        TokenView::Unquote => Some(seq![COMMA]),
        TokenView::UnquoteSplicing => Some(seq![COMMA, AT_SIGN]),
        TokenView::VectorPrefix => Some(seq![HASH, OPEN_PAREN]),
        TokenView::ByteVectorPrefix => Some(ascii_bytes("#vu8("@)),
        TokenView::Boolean(true) => Some(seq![HASH, LOWER_T]),
        TokenView::Boolean(false) => Some(seq![HASH, LOWER_F]),
        TokenView::Character(c) => if (c as int) < 128 {
            Some(seq![HASH, BACKSLASH, c as u8])
        } else {
            None
        },
        TokenView::Number(NumberView::Fixnum(n)) => if i64::MIN <= n <= i64::MAX {
            Some(integer(n))
        } else {
            None
        },
        TokenView::Number(NumberView::Flonum(text)) => if is_ascii(text) && is_inexact(
            ascii_bytes(text),
        ) {
            Some(ascii_bytes(text))
        } else {
            None
        },
        TokenView::String(s) => Some(string_literal(s)),
        TokenView::DatumComment => Some(seq![HASH, SEMICOLON]),
        TokenView::Symbol(s) => if is_plain_symbol(encode_utf8(s)) {
            Some(encode_utf8(s))
        } else {
            None
        },
        TokenView::Eof => None,
    }
}

/// Tokens written one behind the other, each with a space behind it.
pub open spec fn written(tokens: Seq<TokenView>) -> Seq<u8>
    decreases tokens.len(),
{
    if tokens.len() == 0 {
        Seq::empty()
    } else {
        spelling(tokens[0])->0 + seq![SPACE] + written(tokens.subrange(1, tokens.len() as int))
    }
}

// ---- Numbers ----

/// The digits of a number are digits, and their value is the number.
pub proof fn lemma_digits(n: nat)
    ensures
        digits(n).len() > 0,
        forall|k: int| 0 <= k < digits(n).len() ==> lexical::is_digit(#[trigger] digits(n)[k]),
        lexical::digits_value(digits(n)) == n,
    decreases n,
{
    if n < 10 {
        assert(digits(n).drop_last() =~= Seq::empty());
        assert(lexical::digits_value(Seq::<u8>::empty()) == 0);
    } else {
        lemma_digits(n / 10);
        assert(digits(n).drop_last() =~= digits(n / 10));
    }
}

/// A numeral goes on over digits.
pub proof fn lemma_numeral_digits(s: Seq<u8>, n: Numeral, end: int)
    requires
        0 <= n.end <= end <= s.len(),
        forall|k: int| n.end <= k < end ==> lexical::is_digit(#[trigger] s[k]),
    ensures
        lexical::numeral_from(s, n) == lexical::numeral_from(
            s,
            (Numeral { end, digits: n.digits || n.end < end, ..n }),
        ),
    decreases end - n.end,
{
    if n.end < end {
        lemma_numeral_digits(s, Numeral { end: n.end + 1, digits: true, ..n }, end);
    } else {
        assert((Numeral { end, digits: n.digits || n.end < end, ..n }) == n);
    }
}

proof fn lemma_integer(n: int)
    requires
        i64::MIN <= n <= i64::MAX,
    ensures
        surroundings::spells(integer(n), TokenView::Number(NumberView::Fixnum(n))),
{
    let s = integer(n);
    let magnitude = if n < 0 {
        (-n) as nat
    } else {
        n as nat
    };
    lemma_digits(magnitude);
    let sign = if n < 0 {
        1int
    } else {
        0
    };
    assert(s.subrange(sign, s.len() as int) =~= digits(magnitude));
    assert forall|k: int| sign <= k < s.len() implies lexical::is_digit(#[trigger] s[k]) by {
        assert(s[k] == digits(magnitude)[k - sign]);
    }
    assert(lexical::sign_end(s, 0) == sign);
    let start = Numeral { end: sign, digits: false, dot: false, exponent: false, hash: false };
    lemma_numeral_digits(s, start, s.len() as int);
    assert(s.subrange(0, s.len() as int) =~= s);
}

/// A numeral follows a whole decimal literal.
proof fn lemma_decimal_numeral(s: Seq<u8>)
    requires
        lexical::decimal_syntax(s),
    ensures
        lexical::numeral_at(s, 0).end == s.len(),
        lexical::numeral_at(s, 0).digits,
        !lexical::numeral_at(s, 0).hash,
        lexical::numeral_at(s, 0).dot || lexical::numeral_at(s, 0).exponent <==> lexical::run_end(
            s,
            lexical::sign_end(s, 0),
            ByteClass::Digit,
        ) < s.len(),
{
    let whole = lexical::sign_end(s, 0);
    lexical::lemma_run_end(s, whole, ByteClass::Digit);
    let whole_end = lexical::run_end(s, whole, ByteClass::Digit);
    let start = Numeral { end: whole, digits: false, dot: false, exponent: false, hash: false };
    lemma_numeral_digits(s, start, whole_end);
    let first = Numeral { end: whole_end, digits: whole < whole_end, ..start };
    if lexical::byte_at(s, whole_end) == Some(POINT) {
        lexical::lemma_run_end(s, whole_end + 1, ByteClass::Digit);
        let fraction_end = lexical::run_end(s, whole_end + 1, ByteClass::Digit);
        let point = Numeral { end: whole_end + 1, dot: true, ..first };
        assert(lexical::numeral_from(s, first) == lexical::numeral_from(s, point));
        lemma_numeral_digits(s, point, fraction_end);
        lemma_exponent_numeral(s, Numeral { end: fraction_end, digits: true, ..point });
    } else {
        lemma_exponent_numeral(s, first);
    }
}

proof fn lemma_exponent_numeral(s: Seq<u8>, n: Numeral)
    requires
        0 <= n.end <= s.len(),
        n.digits,
        !n.exponent,
        lexical::exponent_syntax(s, n.end),
    ensures
        lexical::numeral_from(s, n).end == s.len(),
        lexical::numeral_from(s, n).digits,
        lexical::numeral_from(s, n).hash == n.hash,
        lexical::numeral_from(s, n).dot == n.dot,
        lexical::numeral_from(s, n).exponent <==> n.end < s.len(),
{
    if n.end < s.len() {
        let exponent = lexical::sign_end(s, n.end + 1);
        lexical::lemma_run_end(s, exponent, ByteClass::Digit);
        let mark = Numeral { end: exponent, exponent: true, ..n };
        assert(lexical::numeral_from(s, n) == lexical::numeral_from(s, mark));
        lemma_numeral_digits(s, mark, s.len() as int);
    }
}

proof fn lemma_inexact(s: Seq<u8>)
    requires
        is_inexact(s),
    ensures
        surroundings::spells(
            s,
            TokenView::Number(NumberView::Flonum(text::byte_text(s))),
        ),
{
    lemma_decimal_numeral(s);
    let whole = lexical::sign_end(s, 0);
    lexical::lemma_run_end(s, whole, ByteClass::Digit);
    assert(s.subrange(0, s.len() as int) =~= s);
    if s[0] == POINT {
        lexical::lemma_run_end(s, 1, ByteClass::Digit);
        assert(lexical::is_digit(s[1]));
    }
}

// ---- Strings ----

/// An ASCII character is the character of its byte.
proof fn lemma_ascii_char(c: char)
    requires
        (c as int) < 128,
    ensures
        (c as u8) as char == c,
        c as u8 == c as int,
{
}

proof fn lemma_hex_digits(n: nat)
    ensures
        hex_digits(n).len() > 0,
        forall|k: int|
            0 <= k < hex_digits(n).len() ==> lexical::is_hex_digit(#[trigger] hex_digits(n)[k]),
        lexical::hex_value(hex_digits(n)) == n,
    decreases n,
{
    if n < 16 {
        assert(hex_digits(n).drop_last() =~= Seq::empty());
        assert(lexical::hex_value(Seq::<u8>::empty()) == 0);
    } else {
        lemma_hex_digits(n / 16);
        assert(hex_digits(n).drop_last() =~= hex_digits(n / 16));
    }
}

/// An escape by number stands for its character.
proof fn lemma_hex_escape(c: char, rest: Seq<u8>, start: int)
    requires
        (c as int) >= 128,
    ensures
        lexical::escape_at(escaped_char(c) + rest, start, 1) == Ok::<_, lexical::Failure>(
            (c, escaped_char(c).len() as int),
        ),
{
    let h = hex_digits(c as nat);
    let e = escaped_char(c);
    let b = e + rest;
    lemma_hex_digits(c as nat);
    let end = 2 + h.len() as int;
    assert(e.len() == end + 1);
    assert(b.subrange(2, end) =~= h);
    assert(b[1] == LOWER_X);
    assert(b[end] == SEMICOLON);
    assert forall|k: int| 2 <= k < end implies lexical::in_class(
        ByteClass::HexDigit,
        #[trigger] b[k],
    ) by {
        assert(b[k] == h[k - 2]);
    }
    laws::lemma_run_of(b, 2, end, ByteClass::HexDigit);
    assert(text::is_scalar_value(c as int));
    assert((c as int) as char == c);
}

proof fn lemma_escaped(s: Seq<char>, start: int)
    ensures
        lexical::string_from(escaped(s) + seq![DOUBLE_QUOTE], start, 0) == Ok::<
            _,
            lexical::Failure,
        >((s, (escaped(s).len() + 1) as int)),
    decreases s.len(),
{
    let b = escaped(s) + seq![DOUBLE_QUOTE];
    if s.len() == 0 {
        assert(b =~= seq![DOUBLE_QUOTE]);
        assert(s =~= Seq::empty());
    } else {
        let c = s[0];
        let others = s.subrange(1, s.len() as int);
        let e = escaped_char(c);
        let rest = escaped(others) + seq![DOUBLE_QUOTE];
        assert(b =~= e + rest);
        assert(s =~= seq![c] + others);
        lemma_escaped(others, start - e.len());
        surroundings::lemma_string_after(e, rest, start - e.len(), 0);
        if c == '"' || c == '\\' {
            assert(b[0] == BACKSLASH);
        } else if (c as int) < 128 {
            assert(b[0] == c as u8);
            lemma_ascii_char(c);
        } else {
            lemma_hex_escape(c, rest, start);
            assert(b[0] == BACKSLASH);
        }
    }
}

proof fn lemma_string_literal(s: Seq<char>)
    ensures
        surroundings::spells(string_literal(s), TokenView::String(s)),
{
    let rest = escaped(s) + seq![DOUBLE_QUOTE];
    lemma_escaped(s, 0);
    surroundings::lemma_string_after(seq![DOUBLE_QUOTE], rest, 0, 0);
    assert(string_literal(s) =~= seq![DOUBLE_QUOTE] + rest);
}

// ---- Symbols ----

proof fn lemma_plain_symbol_end(s: Seq<u8>, i: int)
    requires
        is_plain_symbol(s),
        0 <= i <= s.len(),
    ensures
        lexical::symbol_end(s, i) == Ok::<_, lexical::Failure>(s.len() as int),
    decreases s.len() - i,
{
    if i < s.len() {
        lemma_plain_symbol_end(s, i + 1);
    }
}

proof fn lemma_plain_symbol(name: Seq<char>)
    requires
        is_plain_symbol(encode_utf8(name)),
    ensures
        surroundings::spells(encode_utf8(name), TokenView::Symbol(name)),
{
    let s = encode_utf8(name);
    lemma_plain_symbol_end(s, 0);
    assert(s.subrange(0, s.len() as int) =~= s);
    encode_utf8_valid_utf8(name);
    encode_utf8_decode_utf8(name);
    if s[0] == POINT && s.len() == 1 {
        assert(s =~= seq![POINT]);
    }
}

// ---- All tokens ----

proof fn lemma_hash_spellings()
    ensures
        surroundings::spells(ascii_bytes("#vu8("@), TokenView::ByteVectorPrefix),
        surroundings::spells(seq![HASH, LOWER_T], TokenView::Boolean(true)),
        surroundings::spells(seq![HASH, LOWER_F], TokenView::Boolean(false)),
{
    reveal_strlit("#vu8(");
    reveal_strlit("t");
    reveal_strlit("f");
    reveal_strlit("true");
    reveal_strlit("false");
    let prefix = ascii_bytes("#vu8("@);
    assert(text::byte_text(lexical::lower_all(prefix.subrange(0, 5))) =~= "#vu8("@);
    let yes = seq![HASH, LOWER_T];
    assert(text::byte_text(yes.subrange(1, 2)) =~= "t"@);
    let no = seq![HASH, LOWER_F];
    assert(text::byte_text(no.subrange(1, 2)) =~= "f"@);
    assert(text::byte_text(no.subrange(1, 2))[0] != "t"@[0]);
}

/// Every token is read back from its spelling.
pub proof fn law_spellings_are_read_back(token: TokenView)
    ensures
        spelling(token) matches Some(s) ==> surroundings::spells(s, token),
{
    lemma_hash_spellings();
    match token {
        TokenView::Number(NumberView::Fixnum(n)) => if i64::MIN <= n <= i64::MAX {
            lemma_integer(n);
        },
        TokenView::Number(NumberView::Flonum(text)) => {
            let s = ascii_bytes(text);
            if is_ascii(text) && is_inexact(s) {
                lemma_inexact(s);
                assert(text::byte_text(s) =~= text) by {
                    assert forall|i: int| 0 <= i < text.len() implies text::byte_text(s)[i]
                        == text[i] by {
                        lemma_ascii_char(text[i]);
                    }
                }
            }
        },
        TokenView::String(s) => lemma_string_literal(s),
        TokenView::Symbol(s) => if is_plain_symbol(encode_utf8(s)) {
            lemma_plain_symbol(s);
        },
        TokenView::Character(c) => if (c as int) < 128 {
            let s = seq![HASH, BACKSLASH, c as u8];
            lexical::lemma_run_end(s, 2, ByteClass::Letter);
            lemma_ascii_char(c);
        },
        _ => {},
    }
}

/// Whether every token has a spelling.
pub open spec fn all_spelled(tokens: Seq<TokenView>) -> bool {
    forall|k: int| 0 <= k < tokens.len() ==> spelling(#[trigger] tokens[k]) is Some
}

/// Tokens that are written one behind the other are read back, with the end of
/// input behind them.
pub proof fn law_written_tokens_are_read_back(tokens: Seq<TokenView>)
    requires
        all_spelled(tokens),
    ensures
        surroundings::kinds(lexical::tokens(written(tokens))) == Ok::<_, Seq<char>>(
            tokens.push(TokenView::Eof),
        ),
    decreases tokens.len(),
{
    if tokens.len() == 0 {
        let t = lexical::tokens(written(tokens))->Ok_0;
        assert(surroundings::tokens_of(t) =~= tokens.push(TokenView::Eof));
    } else {
        let others = tokens.subrange(1, tokens.len() as int);
        assert forall|k: int| 0 <= k < others.len() implies spelling(
            #[trigger] others[k],
        ) is Some by {
            assert(others[k] == tokens[k + 1]);
        }
        law_written_tokens_are_read_back(others);
        let s = spelling(tokens[0])->0;
        let rest = seq![SPACE] + written(others);
        law_spellings_are_read_back(tokens[0]);
        surroundings::lemma_whitespace_separates(s, rest);
        laws::law_tokens_separate(s, tokens[0], rest);
        laws::law_whitespace_is_skipped(seq![SPACE], written(others));
        assert(written(tokens) =~= s + rest);
        assert(seq![tokens[0]] + others.push(TokenView::Eof) =~= tokens.push(TokenView::Eof));
    }
}

/// A character is read back from each of its names.
pub proof fn law_named_characters_are_read_back(name: Seq<char>)
    requires
        lexical::character_named(name) is Some,
    ensures
        surroundings::spells(
            seq![HASH, BACKSLASH] + ascii_bytes(name),
            TokenView::Character(lexical::character_named(name)->0),
        ),
{
    reveal_strlit("nul");
    reveal_strlit("alarm");
    reveal_strlit("backspace");
    reveal_strlit("tab");
    reveal_strlit("linefeed");
    reveal_strlit("newline");
    reveal_strlit("lf");
    reveal_strlit("vtab");
    reveal_strlit("page");
    reveal_strlit("return");
    reveal_strlit("cr");
    reveal_strlit("esc");
    reveal_strlit("space");
    reveal_strlit("delete");
    assert(name.len() > 1);
    assert(forall|k: int|
        0 <= k < name.len() ==> LOWER_A <= (#[trigger] name[k]) as int <= LOWER_Z);
    let s = seq![HASH, BACKSLASH] + ascii_bytes(name);
    assert forall|k: int| 2 <= k < s.len() implies lexical::in_class(
        ByteClass::Letter,
        #[trigger] s[k],
    ) by {
        lemma_ascii_char(name[k - 2]);
        assert(s[k] == name[k - 2] as u8);
    }
    laws::lemma_run_of(s, 2, s.len() as int, ByteClass::Letter);
    assert(text::byte_text(s.subrange(2, s.len() as int)) =~= name) by {
        assert forall|k: int| 0 <= k < name.len() implies text::byte_text(
            s.subrange(2, s.len() as int),
        )[k] == name[k] by {
            lemma_ascii_char(name[k]);
            assert(s.subrange(2, s.len() as int)[k] == name[k] as u8);
        }
    }
}

/// The prefix of a bytevector is read in upper case, lower case or mixed.
pub proof fn law_bytevector_prefix_in_any_case(s: Seq<u8>)
    ensures
        surroundings::spells(s, TokenView::ByteVectorPrefix) <==> text::byte_text(
            lexical::lower_all(s),
        ) == "#vu8("@,
{
    reveal_strlit("#vu8(");
    let low = text::byte_text(lexical::lower_all(s));
    if low == "#vu8("@ {
        assert(s.len() == low.len());
        assert(s.subrange(0, 5) =~= s);
        assert(low[0] == '#');
        assert(low[1] == 'v');
    } else if surroundings::spells(s, TokenView::ByteVectorPrefix) {
        assert(s.subrange(0, 5) =~= s);
    }
}

/// The text of an inexact number is always a decimal literal.
pub proof fn law_inexact_numbers_are_decimals(b: Seq<u8>, i: int)
    requires
        0 <= i < b.len(),
    ensures
        lexical::lexeme_at(b, i) matches lexical::Lexeme::Token(
            TokenView::Number(NumberView::Flonum(text)),
            end,
        ) ==> text == text::byte_text(b.subrange(i, end)) && lexical::decimal_syntax(
            b.subrange(i, end),
        ),
{
}

} // verus!
