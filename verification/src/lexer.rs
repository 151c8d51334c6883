//! Lexer for the R6RS lexical syntax (R6RS section 4.2 / 11.7).
//!
//! Produces a flat stream of [`Token`]s together with byte span
//! information. The lexer handles whitespace, line comments (`;`),
//! datum comments (`#;`), block comments (`#| ... |#` with nesting),
//! booleans, characters, numbers, strings (with escapes), the
//! parenthesization marks, quote abbreviations (`'`, `` ` ``, `,`,
//! `,@`), the vector/bytevector prefixes `#(` and `#vu8(`, the dot `.`,
//! and symbols (which subsume everything else not otherwise claimed).
//!
//! Identifiers follow the R6RS constituent + inline-hex-escape rules
//! that are practical to implement with a byte scanner. The grammar itself
//! is stated in [`crate::lexical`].

use crate::ascii::{
    APOSTROPHE, AT_SIGN, BACKQUOTE, BACKSLASH, BAR, CLOSE_PAREN, COMMA, DIGIT_0, DIGIT_9,
    DOUBLE_QUOTE, HASH, LOWER_A, LOWER_B, LOWER_E, LOWER_F, LOWER_N, LOWER_R, LOWER_T, LOWER_V,
    LOWER_X, LOWER_Z, MINUS, NEWLINE, OPEN_PAREN, PLUS, POINT, RETURN, SEMICOLON, SPACE, TAB,
    UPPER_A, UPPER_E, UPPER_F, UPPER_Z,
};
use crate::ast::Number;
use crate::lexical;
use crate::lexical::ByteClass;
use crate::model::number_view;
use crate::text::{byte_text, collect_bytes, decode_lossy, located, push_located, same_text};
use vstd::prelude::*;
use vstd::slice::slice_subrange;
use vstd::string::StringSliceAdditionalSpecFns;

verus! {

/// A 1-based position in the source: line and column. Both stop counting at
/// the largest `u32`.
#[derive(Debug, Clone, Copy, PartialEq, Eq)]
pub struct Span {
    pub line: u32,
    pub column: u32,
    pub offset: usize,
}

impl Default for Span {
    fn default() -> (span: Self)
        ensures
            span == (Span { line: 0, column: 0, offset: 0 }),
    {
        Span { line: 0, column: 0, offset: 0 }
    }
}

/// A lexical token produced by [`tokenize`].
#[derive(Debug, PartialEq)]
pub enum Token {
    LeftParen,
    RightParen,
    /// The `.` used in `(a . b)`. Only emitted when it stands alone as
    /// a dotted-pair marker; `.` as part of a larger token is a symbol.
    Dot,
    Quote,
    QuasiQuote,
    Unquote,
    UnquoteSplicing,
    /// `#(`
    VectorPrefix,
    /// `#vu8(`
    ByteVectorPrefix,
    Boolean(bool),
    Character(char),
    Number(Number),
    String(String),
    /// `#;` datum comment marker (the following datum is to be skipped).
    DatumComment,
    Eof,
    /// A bare symbol/identifier.
    Symbol(String),
}

impl Clone for Token {
    fn clone(&self) -> (copy: Self)
        ensures
            copy == *self,
    {
        match self {
            Token::LeftParen => Token::LeftParen,
            Token::RightParen => Token::RightParen,
            Token::Dot => Token::Dot,
            Token::Quote => Token::Quote,
            Token::QuasiQuote => Token::QuasiQuote,
            Token::Unquote => Token::Unquote,
            Token::UnquoteSplicing => Token::UnquoteSplicing,
            Token::VectorPrefix => Token::VectorPrefix,
            Token::ByteVectorPrefix => Token::ByteVectorPrefix,
            Token::Boolean(b) => Token::Boolean(*b),
            Token::Character(c) => Token::Character(*c),
            Token::Number(n) => Token::Number(n.clone()),
            Token::String(s) => Token::String(s.clone()),
            Token::DatumComment => Token::DatumComment,
            Token::Eof => Token::Eof,
            Token::Symbol(s) => Token::Symbol(s.clone()),
        }
    }
}

/// A token together with its source span.
#[derive(Debug, PartialEq)]
pub struct SpannedToken {
    pub token: Token,
    pub span: Span,
}

impl Clone for SpannedToken {
    fn clone(&self) -> (copy: Self)
        ensures
            copy == *self,
    {
        SpannedToken { token: self.token.clone(), span: self.span }
    }
}

/// A lexical error.
#[derive(Debug, PartialEq)]
pub struct LexError {
    pub message: String,
    pub span: Span,
}

impl Clone for LexError {
    fn clone(&self) -> (copy: Self)
        ensures
            copy == *self,
    {
        LexError { message: self.message.clone(), span: self.span }
    }
}

impl LexError {
    /// The error as one line of text.
    pub fn to_string(&self) -> (text: String)
        ensures
            text@ == "lex error"@ + located(
                self.span.line,
                self.span.column,
                self.message@,
            ),
    {
        let mut text = "lex error".to_string();
        push_located(&mut text, self.span.line, self.span.column, &self.message);
        text
    }
}

// ---- Positions ----

/// The position of offset `to`, counted on from the position `at` before it.
fn span_after(bytes: &[u8], at: Span, to: usize) -> (span: Span)
    requires
        at.offset <= to <= bytes@.len(),
        at == lexical::span_at(bytes@, at.offset as int),
    ensures
        span == lexical::span_at(bytes@, to as int),
{
    let mut line: u32 = at.line;
    let mut column: u32 = at.column;
    let mut i: usize = at.offset;
    while i < to
        invariant
            i <= to <= bytes@.len(),
            (Span { line, column, offset: i }) == lexical::span_at(bytes@, i as int),
        decreases to - i,
    {
        proof {
            lexical::lemma_position(bytes@, i as int);
        }
        if bytes[i] == NEWLINE {
            line = line.saturating_add(1);
            column = 1;
        } else {
            column = column.saturating_add(1);
        }
        i += 1;
    }
    Span { line, column, offset: to }
}

/// The error that `message` describes, at `offset`.
fn error_after(bytes: &[u8], at: Span, offset: usize, message: String) -> (error: LexError)
    requires
        at.offset <= offset <= bytes@.len(),
        at == lexical::span_at(bytes@, at.offset as int),
    ensures
        lexical::lex_error_view(error) == lexical::error_at(
            bytes@,
            lexical::Failure { message: message@, offset: offset as int },
        ),
{
    LexError { message, span: span_after(bytes, at, offset) }
}

// ---- Bytes ----

/// The byte at offset `i`, if there is one.
fn byte_at(bytes: &[u8], i: usize) -> (byte: Option<u8>)
    ensures
        byte == lexical::byte_at(bytes@, i as int),
{
    if i < bytes.len() {
        Some(bytes[i])
    } else {
        None
    }
}

fn is_digit(c: u8) -> (r: bool)
    ensures
        r == lexical::is_digit(c),
{
    DIGIT_0 <= c && c <= DIGIT_9
}

fn in_class(class: &ByteClass, c: u8) -> (r: bool)
    ensures
        r == lexical::in_class(*class, c),
{
    match class {
        ByteClass::Digit => is_digit(c),
        ByteClass::HexDigit => is_digit(c) || (LOWER_A <= c && c <= LOWER_F) || (UPPER_A <= c && c
            <= UPPER_F),
        ByteClass::Letter => (LOWER_A <= c && c <= LOWER_Z) || (UPPER_A <= c && c <= UPPER_Z),
        ByteClass::NotNewline => c != NEWLINE,
        ByteClass::NotSemicolon => c != SEMICOLON,
    }
}

/// Where the run of bytes of a class that begins at `from` ends.
fn run_end(bytes: &[u8], from: usize, class: ByteClass) -> (end: usize)
    requires
        from <= bytes@.len(),
    ensures
        end == lexical::run_end(bytes@, from as int, class),
        from <= end <= bytes@.len(),
{
    let mut i: usize = from;
    while i < bytes.len() && in_class(&class, bytes[i])
        invariant
            from <= i <= bytes@.len(),
            lexical::run_end(bytes@, from as int, class) == lexical::run_end(
                bytes@,
                i as int,
                class,
            ),
        decreases bytes@.len() - i,
    {
        i += 1;
    }
    i
}

/// Whether a symbol ends before `next`, the byte that follows it, if any.
fn is_symbol_terminator(next: Option<u8>) -> (ends: bool)
    ensures
        ends == lexical::symbol_terminator(next),
{
    match next {
        None => true,
        Some(c) => c == SPACE || c == TAB || c == RETURN || c == NEWLINE || c == OPEN_PAREN || c
            == CLOSE_PAREN || c == DOUBLE_QUOTE || c == SEMICOLON || c == APOSTROPHE || c
            == BACKQUOTE || c == COMMA,
    }
}

/// Whether `word` stands at offset `i`.
fn starts_with(bytes: &[u8], i: usize, word: &str) -> (found: bool)
    requires
        word.is_ascii(),
        i <= bytes@.len(),
    ensures
        found == lexical::word_at(bytes@, i as int, word@),
{
    let w = word.as_bytes();
    if bytes.len() - i < w.len() {
        return false;
    }
    let mut k: usize = 0;
    while k < w.len()
        invariant
            word.is_ascii(),
            w@ == word.spec_bytes(),
            w@.len() == word@.len(),
            i + w@.len() <= bytes.len(),
            k <= w@.len(),
            forall|j: int| 0 <= j < k ==> bytes@[i + j] == #[trigger] w@[j],
        decreases w@.len() - k,
    {
        if bytes[i + k] != w[k] {
            assert(byte_text(bytes@.subrange(i as int, i + w@.len()))[k as int] != word@[k as int]);
            return false;
        }
        k += 1;
    }
    assert(byte_text(bytes@.subrange(i as int, i + w@.len())) =~= word@) by {
        assert forall|j: int| 0 <= j < w@.len() implies bytes@[i + j] as char == word@[j] by {
            assert(bytes@[i + j] == w@[j]);
        }
    }
    true
}

// ---- Symbols ----

/// Read a symbol starting at the position `at`. Returns the symbol text and
/// the number of bytes consumed.
fn read_symbol(bytes: &[u8], at: Span) -> (r: Result<(String, usize), LexError>)
    requires
        at.offset <= bytes@.len(),
        at == lexical::span_at(bytes@, at.offset as int),
    ensures
        match r {
            Ok((text, consumed)) => lexical::symbol_at(bytes@, at.offset as int) == Ok::<
                (Seq<char>, int),
                lexical::Failure,
            >((text@, at.offset + consumed)) && at.offset + consumed <= bytes@.len(),
            Err(e) => lexical::symbol_at(bytes@, at.offset as int) matches Err(f)
                && lexical::lex_error_view(e) == lexical::error_at(bytes@, f),
        },
{
    let start: usize = at.offset;
    let mut i: usize = start;
    while !is_symbol_terminator(byte_at(bytes, i))
        invariant
            start == at.offset,
            start <= i <= bytes@.len(),
            at == lexical::span_at(bytes@, at.offset as int),
            lexical::symbol_end(bytes@, start as int) == lexical::symbol_end(bytes@, i as int),
        decreases bytes@.len() - i,
    {
        // inline hex escapes \x...; go up to the semicolon
        if bytes[i] == BACKSLASH && byte_at(bytes, i + 1) == Some(LOWER_X) {
            let semicolon = run_end(bytes, i + 2, ByteClass::NotSemicolon);
            if semicolon >= bytes.len() {
                let message = "unterminated inline hex escape".to_string();
                return Err(error_after(bytes, at, i, message));
            }
            i = semicolon + 1;
        } else {
            i += 1;
        }
    }
    let text = decode_lossy(slice_subrange(bytes, start, i));
    Ok((text, i - start))
}

// ---- Numbers ----

/// Past the sign at `i`, if there is one.
fn sign_end(bytes: &[u8], i: usize) -> (end: usize)
    requires
        i <= bytes@.len(),
    ensures
        end == lexical::sign_end(bytes@, i as int),
        i <= end <= bytes@.len(),
{
    if i < bytes.len() && (bytes[i] == PLUS || bytes[i] == MINUS) {
        i + 1
    } else {
        i
    }
}

/// Whether the rest of `s` from `i` is empty or an exponent.
fn is_exponent(s: &[u8], i: usize) -> (r: bool)
    requires
        i <= s@.len(),
    ensures
        r == lexical::exponent_syntax(s@, i as int),
{
    if i == s.len() {
        return true;
    }
    if s[i] != LOWER_E && s[i] != UPPER_E {
        return false;
    }
    let digits = sign_end(s, i + 1);
    digits < s.len() && run_end(s, digits, ByteClass::Digit) == s.len()
}

/// Whether `s` is a decimal literal.
fn is_decimal(s: &[u8]) -> (r: bool)
    ensures
        r == lexical::decimal_syntax(s@),
{
    let whole = sign_end(s, 0);
    let whole_end = run_end(s, whole, ByteClass::Digit);
    if whole_end < s.len() && s[whole_end] == POINT {
        let fraction_end = run_end(s, whole_end + 1, ByteClass::Digit);
        (whole < whole_end || whole_end + 1 < fraction_end) && is_exponent(s, fraction_end)
    } else {
        whole < whole_end && is_exponent(s, whole_end)
    }
}

/// The value of decimal digits behind an optional sign, where it fits.
fn parse_integer(s: &[u8]) -> (r: Option<i64>)
    requires
        forall|k: int|
            lexical::sign_end(s@, 0) <= k < s@.len() ==> lexical::is_digit(#[trigger] s@[k]),
    ensures
        match r {
            Some(n) => n == lexical::integer_value(s@),
            None => !(i64::MIN <= lexical::integer_value(s@) <= i64::MAX),
        },
{
    let start = sign_end(s, 0);
    let ghost digits = s@.subrange(start as int, s@.len() as int);
    let mut magnitude: u64 = 0;
    let mut i: usize = start;
    assert(digits.take(0) =~= Seq::<u8>::empty());
    while i < s.len()
        invariant
            start == lexical::sign_end(s@, 0),
            start <= i <= s@.len(),
            digits == s@.subrange(start as int, s@.len() as int),
            forall|k: int| start <= k < s@.len() ==> lexical::is_digit(#[trigger] s@[k]),
            magnitude == lexical::digits_value(digits.take(i - start)),
            magnitude <= 10_000_000_000_000_000_009,
        decreases s@.len() - i,
    {
        proof {
            let next = digits.take(i - start + 1);
            assert(next.drop_last() =~= digits.take(i - start));
            assert(next.last() == s@[i as int]);
            lexical::lemma_digits_value_grows(digits, i - start + 1);
        }
        if magnitude > 1_000_000_000_000_000_000 {
            return None;
        }
        magnitude = magnitude * 10 + (s[i] - DIGIT_0) as u64;
        i += 1;
    }
    assert(digits.take(s@.len() - start) =~= digits);
    if start == 1 && s[0] == MINUS {
        if magnitude < 0x8000_0000_0000_0000 {
            Some(-(magnitude as i64))
        } else if magnitude == 0x8000_0000_0000_0000 {
            Some(i64::MIN)
        } else {
            None
        }
    } else if magnitude < 0x8000_0000_0000_0000 {
        Some(magnitude as i64)
    } else {
        None
    }
}

/// Try to read a number at `start`. Returns Ok with the number and byte
/// length consumed, or Err if it is not a number.
fn read_number(bytes: &[u8], start: usize) -> (r: Result<(Number, usize), ()>)
    ensures
        match r {
            Ok((n, consumed)) => lexical::number_at(bytes@, start as int) == Some(
                (number_view(n), start + consumed),
            ) && start + consumed <= bytes@.len(),
            Err(_) => lexical::number_at(bytes@, start as int) is None,
        },
{
    if start > bytes.len() {
        return Err(());
    }
    let sign = sign_end(bytes, start);
    let mut i: usize = sign;
    let mut digits = false;
    let mut dot = false;
    let mut exponent = false;
    let mut hash = false;
    let mut more = true;
    while more
        invariant
            start <= sign <= i <= bytes@.len(),
            sign == lexical::sign_end(bytes@, start as int),
            ({
                let n = lexical::Numeral { end: i as int, digits, dot, exponent, hash };
                &&& lexical::numeral_at(bytes@, start as int) == lexical::numeral_from(bytes@, n)
                &&& !more ==> lexical::numeral_from(bytes@, n) == n
            }),
            !dot && !exponent && !hash ==> forall|k: int|
                sign <= k < i ==> lexical::is_digit(#[trigger] bytes@[k]),
        decreases bytes@.len() - i + if more { 1int } else { 0int },
    {
        if i >= bytes.len() {
            more = false;
        } else {
            let c = bytes[i];
            if is_digit(c) {
                digits = true;
                i += 1;
            } else if c == POINT && !dot && !exponent {
                dot = true;
                i += 1;
            } else if (c == LOWER_E || c == UPPER_E) && digits && !exponent {
                exponent = true;
                i = sign_end(bytes, i + 1);
            } else if c == HASH && digits {
                // R6RS writes # for digits that are not known
                hash = true;
                i += 1;
            } else {
                more = false;
            }
        }
    }
    if !digits {
        return Err(());
    }
    let s = slice_subrange(bytes, start, i);
    let consumed = i - start;
    // Prefer exact integers when no fractional/exponent/inexactness marker is
    // present; only fall back to inexact for the rest.
    if !dot && !exponent && !hash {
        proof {
            assert forall|k: int|
                lexical::sign_end(s@, 0) <= k < s@.len() implies lexical::is_digit(
                #[trigger] s@[k],
            ) by {
                assert(s@[k] == bytes@[start + k]);
            }
        }
        if let Some(n) = parse_integer(s) {
            return Ok((Number::Fixnum(n), consumed));
        }
    }
    if is_decimal(s) {
        return Ok((Number::Flonum(collect_bytes(bytes, start, i)), consumed));
    }
    Err(())
}

// ---- Tokens that begin with `#` ----

/// Read a boolean literal starting at `start`, where a `#` stands.
/// Returns `(value, bytes_consumed)` for #t/#f/#true/#false.
fn read_boolean(bytes: &[u8], start: usize) -> (r: Option<(bool, usize)>)
    requires
        start < bytes.len(),
    ensures
        match r {
            Some((value, consumed)) => lexical::boolean_at(bytes@, start as int) == Some(
                (value, start + consumed),
            ) && start + consumed <= bytes@.len(),
            None => lexical::boolean_at(bytes@, start as int) is None,
        },
{
    proof {
        reveal_strlit("true");
        reveal_strlit("false");
        reveal_strlit("t");
        reveal_strlit("f");
    }
    if starts_with(bytes, start + 1, "true") && is_symbol_terminator(byte_at(bytes, start + 5)) {
        Some((true, 5))
    } else if starts_with(bytes, start + 1, "false") && is_symbol_terminator(
        byte_at(bytes, start + 6),
    ) {
        Some((false, 6))
    } else if starts_with(bytes, start + 1, "t") && is_symbol_terminator(
        byte_at(bytes, start + 2),
    ) {
        Some((true, 2))
    } else if starts_with(bytes, start + 1, "f") && is_symbol_terminator(
        byte_at(bytes, start + 2),
    ) {
        Some((false, 2))
    } else {
        None
    }
}

/// The lower-case form of an ASCII letter; any other byte as it is.
fn lower(c: u8) -> (r: u8)
    ensures
        r == lexical::lower(c),
{
    if UPPER_A <= c && c <= UPPER_Z {
        c + 32
    } else {
        c
    }
}

/// Collects `bytes[from..to]` into text, letters in lower case.
fn collect_lower(bytes: &[u8], from: usize, to: usize) -> (text: String)
    requires
        from <= to <= bytes@.len(),
    ensures
        text@ == byte_text(lexical::lower_all(bytes@.subrange(from as int, to as int))),
{
    let mut text = String::new();
    let mut i: usize = from;
    while i < to
        invariant
            from <= i <= to <= bytes@.len(),
            text@ == byte_text(lexical::lower_all(bytes@.subrange(from as int, i as int))),
        decreases to - i,
    {
        text.push(lower(bytes[i]) as char);
        i += 1;
        assert(text@ =~= byte_text(lexical::lower_all(bytes@.subrange(from as int, i as int))));
    }
    text
}

/// Try to read a `#vu8(` (case-insensitive) bytevector prefix at `start`.
/// Returns the index just past `(` if matched, else `None`.
fn read_bytevector_prefix(bytes: &[u8], start: usize) -> (r: Option<usize>)
    ensures
        r == (if lexical::bytevector_prefix_at(bytes@, start as int) {
            Some((start + 5) as usize)
        } else {
            None
        }),
        r matches Some(end) ==> start + 5 == end <= bytes@.len(),
{
    if start > bytes.len() || bytes.len() - start < 5 {
        return None;
    }
    let text = collect_lower(bytes, start, start + 5);
    if same_text(text.as_str(), "#vu8(") {
        Some(start + 5)
    } else {
        None
    }
}

/// The character that a name stands for.
fn named_character(name: &str) -> (c: Option<char>)
    ensures
        c == lexical::character_named(name@),
{
    if same_text(name, "nul") {
        Some('\u{0000}')
    } else if same_text(name, "alarm") {
        Some('\u{0007}')
    } else if same_text(name, "backspace") {
        Some('\u{0008}')
    } else if same_text(name, "tab") {
        Some('\t')
    } else if same_text(name, "linefeed") || same_text(name, "newline") || same_text(name, "lf") {
        Some('\n')
    } else if same_text(name, "vtab") {
        Some('\u{000B}')
    } else if same_text(name, "page") {
        Some('\u{000C}')
    } else if same_text(name, "return") || same_text(name, "cr") {
        Some('\r')
    } else if same_text(name, "esc") {
        Some('\u{001B}')
    } else if same_text(name, "space") {
        Some(' ')
    } else if same_text(name, "delete") {
        Some('\u{007F}')
    } else {
        None
    }
}

/// Read a character literal body after `#\`, at the position `at`. Returns the
/// character and the number of bytes consumed.
fn read_character(bytes: &[u8], at: Span) -> (r: Result<(char, usize), LexError>)
    requires
        at.offset <= bytes@.len(),
        at == lexical::span_at(bytes@, at.offset as int),
    ensures
        match r {
            Ok((c, consumed)) => lexical::character_at(bytes@, at.offset as int) == Ok::<
                (char, int),
                lexical::Failure,
            >((c, at.offset + consumed)) && at.offset + consumed <= bytes@.len(),
            Err(e) => lexical::character_at(bytes@, at.offset as int) matches Err(f)
                && lexical::lex_error_view(e) == lexical::error_at(bytes@, f),
        },
{
    let start: usize = at.offset;
    if start >= bytes.len() {
        let message = "unexpected end of input in character literal".to_string();
        return Err(error_after(bytes, at, start, message));
    }
    // A named character is a run of two or more letters.
    let end = run_end(bytes, start, ByteClass::Letter);
    if end > start + 1 {
        let name = collect_bytes(bytes, start, end);
        if let Some(c) = named_character(name.as_str()) {
            return Ok((c, end - start));
        }
    }
    // Otherwise exactly one byte -> char.
    Ok((bytes[start] as char, 1))
}

/// Past the block comment whose contents begin at `start`, behind its `#|`.
fn read_block_comment(bytes: &[u8], start: usize) -> (r: Option<usize>)
    requires
        start <= bytes@.len(),
    ensures
        match r {
            Some(end) => lexical::block_comment_end(bytes@, start as int, 1) == Some(end as int)
                && end <= bytes@.len(),
            None => lexical::block_comment_end(bytes@, start as int, 1) is None,
        },
{
    let mut i: usize = start;
    let mut depth: usize = 1;
    while i < bytes.len() && depth > 0
        invariant
            start <= i <= bytes@.len(),
            depth <= 1 + i - start,
            lexical::block_comment_end(bytes@, start as int, 1) == lexical::block_comment_end(
                bytes@,
                i as int,
                depth as nat,
            ),
        decreases bytes@.len() - i,
    {
        if bytes[i] == HASH && byte_at(bytes, i + 1) == Some(BAR) {
            depth += 1;
            i += 2;
        } else if bytes[i] == BAR && byte_at(bytes, i + 1) == Some(HASH) {
            depth -= 1;
            i += 2;
        } else {
            i += 1;
        }
    }
    if depth == 0 {
        Some(i)
    } else {
        None
    }
}

// ---- Strings ----

/// The value of a hexadecimal digit.
fn hex_digit_value(c: u8) -> (value: u32)
    requires
        lexical::is_hex_digit(c),
    ensures
        value == lexical::hex_digit_value(c),
        value < 16,
{
    if is_digit(c) {
        (c - DIGIT_0) as u32
    } else if LOWER_A <= c && c <= LOWER_F {
        (c - LOWER_A) as u32 + 10
    } else {
        (c - UPPER_A) as u32 + 10
    }
}

/// Read a hex escape in a string at offset `start`, behind its `\x`. Returns
/// the character and the offset behind the semicolon.
fn read_hex_escape(bytes: &[u8], at: Span, start: usize) -> (r: Result<(char, usize), LexError>)
    requires
        at.offset <= start <= bytes@.len(),
        at == lexical::span_at(bytes@, at.offset as int),
    ensures
        match r {
            Ok((c, end)) => lexical::hex_escape_at(bytes@, start as int) == Ok::<
                (char, int),
                lexical::Failure,
            >((c, end as int)) && start < end <= bytes@.len(),
            Err(e) => lexical::hex_escape_at(bytes@, start as int) matches Err(f)
                && lexical::lex_error_view(e) == lexical::error_at(bytes@, f),
        },
{
    let end = run_end(bytes, start, ByteClass::HexDigit);
    if end < bytes.len() && bytes[end] != SEMICOLON {
        return Err(error_after(bytes, at, end, "invalid hex escape in string".to_string()));
    }
    if end == start || end >= bytes.len() {
        return Err(error_after(bytes, at, end, "malformed hex escape in string".to_string()));
    }
    let ghost digits = bytes@.subrange(start as int, end as int);
    proof {
        lexical::lemma_run_end(bytes@, start as int, ByteClass::HexDigit);
        assert forall|k: int| 0 <= k < digits.len() implies lexical::is_hex_digit(
            #[trigger] digits[k],
        ) by {
            assert(lexical::in_class(ByteClass::HexDigit, bytes@[start + k]));
        }
        assert(digits.take(0) =~= Seq::<u8>::empty());
    }
    // A value too large to be a character stays one, whatever follows.
    let mut value: u32 = 0;
    let mut i: usize = start;
    while i < end
        invariant
            start <= i <= end <= bytes@.len(),
            digits == bytes@.subrange(start as int, end as int),
            forall|k: int| 0 <= k < digits.len() ==> lexical::is_hex_digit(#[trigger] digits[k]),
            value <= 0x0FFF_FFFF ==> value == lexical::hex_value(digits.take(i - start)),
            value > 0x0FFF_FFFF ==> lexical::hex_value(digits.take(i - start)) > 0x0FFF_FFFF,
        decreases end - i,
    {
        proof {
            let next = digits.take(i - start + 1);
            assert(next.drop_last() =~= digits.take(i - start));
            assert(next.last() == digits[i - start]);
            assert(lexical::is_hex_digit(digits[i - start]));
        }
        if value <= 0x0FFF_FFFF {
            value = value * 16 + hex_digit_value(bytes[i]);
        }
        i += 1;
    }
    assert(digits.take(end - start) =~= digits);
    match char::from_u32(value) {
        Some(c) => Ok((c, end + 1)),
        None => {
            let message = "invalid scalar value in string escape".to_string();
            Err(error_after(bytes, at, end + 1, message))
        },
    }
}

/// What a backslash and the byte `c` stand for in a string, the hex escape
/// aside.
fn simple_escape(c: u8) -> (r: Option<char>)
    ensures
        r == lexical::simple_escape(c),
{
    if c == DOUBLE_QUOTE {
        Some('"')
    } else if c == BACKSLASH {
        Some('\\')
    } else if c == LOWER_N {
        Some('\n')
    } else if c == LOWER_T {
        Some('\t')
    } else if c == LOWER_R {
        Some('\r')
    } else if c == LOWER_A {
        Some('\u{0007}')
    } else if c == LOWER_B {
        Some('\u{0008}')
    } else if c == LOWER_F {
        Some('\u{000C}')
    } else if c == LOWER_V {
        Some('\u{000B}')
    } else {
        None
    }
}

/// Read an escape in the string that begins at `at`, at offset `i` behind its
/// backslash. Returns the character and the offset behind the escape.
fn read_escape(bytes: &[u8], at: Span, i: usize) -> (r: Result<(char, usize), LexError>)
    requires
        at.offset <= i <= bytes@.len(),
        at == lexical::span_at(bytes@, at.offset as int),
    ensures
        match r {
            Ok((c, end)) => lexical::escape_at(bytes@, at.offset as int, i as int) == Ok::<
                (char, int),
                lexical::Failure,
            >((c, end as int)) && i < end <= bytes@.len(),
            Err(e) => lexical::escape_at(bytes@, at.offset as int, i as int) matches Err(f)
                && lexical::lex_error_view(e) == lexical::error_at(bytes@, f),
        },
{
    if i >= bytes.len() {
        let message = "unterminated string escape".to_string();
        return Err(error_after(bytes, at, at.offset, message));
    }
    let c = bytes[i];
    if let Some(x) = simple_escape(c) {
        return Ok((x, i + 1));
    }
    if c == LOWER_X {
        return read_hex_escape(bytes, at, i + 1);
    }
    let mut message = "unknown string escape \\".to_string();
    message.push(c as char);
    Err(error_after(bytes, at, i + 1, message))
}

/// Read a string literal whose contents begin at the position `at`, behind the
/// opening quote. Returns the string and the number of bytes consumed, the
/// closing quote among them.
fn read_string(bytes: &[u8], at: Span) -> (r: Result<(String, usize), LexError>)
    requires
        at.offset <= bytes@.len(),
        at == lexical::span_at(bytes@, at.offset as int),
    ensures
        match r {
            Ok((s, consumed)) => lexical::string_from(
                bytes@,
                at.offset as int,
                at.offset as int,
            ) == Ok::<(Seq<char>, int), lexical::Failure>((s@, at.offset + consumed))
                && at.offset + consumed <= bytes@.len(),
            Err(e) => lexical::string_from(
                bytes@,
                at.offset as int,
                at.offset as int,
            ) matches Err(f) && lexical::lex_error_view(e) == lexical::error_at(bytes@, f),
        },
{
    let start: usize = at.offset;
    let mut out = String::new();
    let mut i: usize = start;
    let ghost whole = lexical::string_from(bytes@, start as int, start as int);
    assert(whole == lexical::preceded_by(out@, whole)) by {
        if let Ok((s, end)) = whole {
            assert(out@ + s =~= s);
        }
    }
    while i < bytes.len()
        invariant
            start == at.offset,
            start <= i <= bytes@.len(),
            at == lexical::span_at(bytes@, at.offset as int),
            whole == lexical::string_from(bytes@, start as int, start as int),
            whole == lexical::preceded_by(
                out@,
                lexical::string_from(bytes@, start as int, i as int),
            ),
        decreases bytes@.len() - i,
    {
        let b = bytes[i];
        if b == DOUBLE_QUOTE {
            assert(out@ + Seq::<char>::empty() =~= out@);
            return Ok((out, i + 1 - start));
        }
        let ghost before = out@;
        let ghost rest = lexical::string_from(bytes@, start as int, i as int);
        let mut c: char = b as char;
        let mut next: usize = i + 1;
        if b == BACKSLASH {
            match read_escape(bytes, at, i + 1) {
                Ok((x, end)) => {
                    c = x;
                    next = end;
                },
                Err(e) => {
                    return Err(e);
                },
            }
        }
        out.push(c);
        i = next;
        proof {
            let after = lexical::string_from(bytes@, start as int, i as int);
            assert(rest == lexical::preceded_by(seq![c], after));
            if let Ok((s, end)) = after {
                assert(before + (seq![c] + s) =~= out@ + s);
            }
        }
    }
    Err(error_after(bytes, at, start, "unterminated string".to_string()))
}

// ---- Whole sources ----

/// What stands at one place of a source: whitespace or a comment, or a token;
/// and the offset behind it.
enum Lexeme {
    Blank(usize),
    Token(Token, usize),
}

/// Whether `r` is what the grammar says of a place in the source.
spec fn is_lexeme(b: Seq<u8>, r: Result<Lexeme, LexError>, expected: lexical::Lexeme) -> bool {
    match r {
        Ok(Lexeme::Blank(end)) => expected == lexical::Lexeme::Blank(end as int) && end <= b.len(),
        Ok(Lexeme::Token(token, end)) => expected == lexical::Lexeme::Token(
            lexical::token_view(token),
            end as int,
        ) && end <= b.len(),
        Err(e) => expected matches lexical::Lexeme::Bad(f) && lexical::lex_error_view(e)
            == lexical::error_at(b, f),
    }
}

/// Read a symbol as a lexeme.
fn read_symbol_lexeme(bytes: &[u8], at: Span) -> (r: Result<Lexeme, LexError>)
    requires
        at.offset <= bytes.len(),
        at == lexical::span_at(bytes@, at.offset as int),
    ensures
        is_lexeme(bytes@, r, lexical::symbol_lexeme(bytes@, at.offset as int)),
{
    match read_symbol(bytes, at) {
        Ok((text, consumed)) => Ok(Lexeme::Token(Token::Symbol(text), at.offset + consumed)),
        Err(e) => Err(e),
    }
}

/// Read the lexeme at `at`, where a `#` stands.
fn read_hash_lexeme(bytes: &[u8], at: Span) -> (r: Result<Lexeme, LexError>)
    requires
        at.offset < bytes.len(),
        at == lexical::span_at(bytes@, at.offset as int),
    ensures
        is_lexeme(bytes@, r, lexical::hash_lexeme(bytes@, at.offset as int)),
{
    let i: usize = at.offset;
    let next = byte_at(bytes, i + 1);
    if next == Some(BAR) {
        // nested block comment #| ... |#
        return match read_block_comment(bytes, i + 2) {
            Some(end) => Ok(Lexeme::Blank(end)),
            None => Err(error_after(bytes, at, i, "unterminated block comment".to_string())),
        };
    }
    if next == Some(SEMICOLON) {
        return Ok(Lexeme::Token(Token::DatumComment, i + 2));
    }
    if next == Some(OPEN_PAREN) {
        return Ok(Lexeme::Token(Token::VectorPrefix, i + 2));
    }
    if next == Some(BACKSLASH) {
        // character literal
        return match read_character(bytes, span_after(bytes, at, i + 2)) {
            Ok((c, consumed)) => Ok(Lexeme::Token(Token::Character(c), i + 2 + consumed)),
            Err(e) => Err(e),
        };
    }
    // #vu8(  (and #vU8(, #Vu8(, #VU8( per common impls)
    if let Some(end) = read_bytevector_prefix(bytes, i) {
        return Ok(Lexeme::Token(Token::ByteVectorPrefix, end));
    }
    // boolean #t #f #true #false
    if let Some((value, consumed)) = read_boolean(bytes, i) {
        return Ok(Lexeme::Token(Token::Boolean(value), i + consumed));
    }
    // Otherwise: a symbol beginning with #.
    read_symbol_lexeme(bytes, at)
}

/// Read the lexeme at `at`, where a digit, a sign or a point stands.
fn read_number_lexeme(bytes: &[u8], at: Span) -> (r: Result<Lexeme, LexError>)
    requires
        at.offset < bytes.len(),
        at == lexical::span_at(bytes@, at.offset as int),
    ensures
        is_lexeme(bytes@, r, lexical::number_lexeme(bytes@, at.offset as int)),
{
    let i: usize = at.offset;
    if bytes[i] == POINT && is_symbol_terminator(byte_at(bytes, i + 1)) {
        // lone dot = dotted-pair marker
        return Ok(Lexeme::Token(Token::Dot, i + 1));
    }
    // Try to lex a number first; if that fails, treat as symbol.
    match read_number(bytes, i) {
        Ok((n, consumed)) => Ok(Lexeme::Token(Token::Number(n), i + consumed)),
        Err(_) => read_symbol_lexeme(bytes, at),
    }
}

/// Read the lexeme at `at`.
fn read_lexeme(bytes: &[u8], at: Span) -> (r: Result<Lexeme, LexError>)
    requires
        at.offset < bytes.len(),
        at == lexical::span_at(bytes@, at.offset as int),
    ensures
        is_lexeme(bytes@, r, lexical::lexeme_at(bytes@, at.offset as int)),
{
    let i: usize = at.offset;
    let c = bytes[i];
    if c == SPACE || c == TAB || c == RETURN || c == NEWLINE {
        Ok(Lexeme::Blank(i + 1))
    } else if c == SEMICOLON {
        // line comment
        Ok(Lexeme::Blank(run_end(bytes, i, ByteClass::NotNewline)))
    } else if c == HASH {
        read_hash_lexeme(bytes, at)
    } else if c == OPEN_PAREN {
        Ok(Lexeme::Token(Token::LeftParen, i + 1))
    } else if c == CLOSE_PAREN {
        Ok(Lexeme::Token(Token::RightParen, i + 1))
    } else if c == APOSTROPHE {
        Ok(Lexeme::Token(Token::Quote, i + 1))
    } else if c == BACKQUOTE {
        Ok(Lexeme::Token(Token::QuasiQuote, i + 1))
    } else if c == COMMA {
        if byte_at(bytes, i + 1) == Some(AT_SIGN) {
            Ok(Lexeme::Token(Token::UnquoteSplicing, i + 2))
        } else {
            Ok(Lexeme::Token(Token::Unquote, i + 1))
        }
    } else if c == DOUBLE_QUOTE {
        match read_string(bytes, span_after(bytes, at, i + 1)) {
            Ok((s, consumed)) => Ok(Lexeme::Token(Token::String(s), i + 1 + consumed)),
            Err(e) => Err(e),
        }
    } else if is_digit(c) || c == PLUS || c == MINUS || c == POINT {
        read_number_lexeme(bytes, at)
    } else {
        read_symbol_lexeme(bytes, at)
    }
}

/// Tokenize the input source into a flat list of spanned tokens.
///
/// Comments (other than datum comments, which are emitted as a token
/// so the parser can consume the following datum) and whitespace are
/// consumed but not emitted. A single trailing [`Token::Eof`] is
/// appended.
pub fn tokenize(src: &str) -> (r: Result<Vec<SpannedToken>, LexError>)
    ensures
        lexical::tokens_result(r) == lexical::tokens(src.spec_bytes()),
{
    let bytes = src.as_bytes();
    let mut at = Span { line: 1, column: 1, offset: 0 };
    let mut out: Vec<SpannedToken> = Vec::new();
    let ghost whole = lexical::tokens(bytes@);
    assert(lexical::with_tokens(lexical::spanned_views(out@), whole) == whole) by {
        if let Ok(all) = whole {
            assert(lexical::spanned_views(out@) + all =~= all);
        }
    }
    while at.offset < bytes.len()
        invariant
            bytes@ == src.spec_bytes(),
            at.offset <= bytes@.len(),
            at == lexical::span_at(bytes@, at.offset as int),
            whole == lexical::tokens(bytes@),
            whole == lexical::with_tokens(
                lexical::spanned_views(out@),
                lexical::tokens_from(bytes@, at.offset as int),
            ),
        decreases bytes@.len() - at.offset,
    {
        proof {
            lexical::lemma_lexeme_end(bytes@, at.offset as int);
        }
        match read_lexeme(bytes, at) {
            Ok(Lexeme::Blank(end)) => {
                at = span_after(bytes, at, end);
            },
            Ok(Lexeme::Token(token, end)) => {
                let ghost before = lexical::spanned_views(out@);
                let ghost this = lexical::SpannedView {
                    token: lexical::token_view(token),
                    span: at,
                };
                out.push(SpannedToken { token, span: at });
                at = span_after(bytes, at, end);
                proof {
                    assert(lexical::spanned_views(out@) =~= before.push(this));
                    if let Ok(rest) = lexical::tokens_from(bytes@, at.offset as int) {
                        assert(before + (seq![this] + rest) =~= before.push(this) + rest);
                    }
                }
            },
            Err(e) => {
                return Err(e);
            },
        }
    }
    let ghost before = lexical::spanned_views(out@);
    out.push(SpannedToken { token: Token::Eof, span: at });
    assert(lexical::spanned_views(out@) =~= before + seq![
        lexical::SpannedView { token: lexical::TokenView::Eof, span: at },
    ]);
    Ok(out)
}

} // verus!
