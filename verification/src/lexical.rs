//! The lexical grammar: what each source text means as a sequence of tokens.
//!
//! A source is a sequence of bytes. [`tokens`] gives the tokens of a whole
//! source, or the error it is rejected with; everything else in this module is
//! a part of that definition.

use crate::ascii::{
    APOSTROPHE, AT_SIGN, BACKQUOTE, BACKSLASH, BAR, CLOSE_PAREN, COMMA, DIGIT_0, DIGIT_9,
    DOUBLE_QUOTE, HASH, LOWER_A, LOWER_B, LOWER_E, LOWER_F, LOWER_N, LOWER_R, LOWER_T, LOWER_V,
    LOWER_X, LOWER_Z, MINUS, NEWLINE, OPEN_PAREN, PLUS, POINT, RETURN, SEMICOLON, SPACE, TAB,
    UPPER_A, UPPER_E, UPPER_F, UPPER_Z,
};
use crate::lexer::{LexError, Span, SpannedToken, Token};
use crate::model::{number_view, NumberView};
use crate::text::{byte_text, is_scalar_value, text_of};
use vstd::prelude::*;

verus! {

/// The model of a [`Token`].
pub enum TokenView {
    LeftParen,
    RightParen,
    Dot,
    Quote,
    QuasiQuote,
    Unquote,
    UnquoteSplicing,
    VectorPrefix,
    ByteVectorPrefix,
    Boolean(bool),
    Character(char),
    Number(NumberView),
    String(Seq<char>),
    DatumComment,
    Eof,
    Symbol(Seq<char>),
}

/// The model of a [`SpannedToken`].
pub struct SpannedView {
    pub token: TokenView,
    pub span: Span,
}

/// The model of an error: what is wrong, and where.
pub struct ErrorView {
    pub message: Seq<char>,
    pub span: Span,
}

/// An error while its place is still given as an offset.
pub struct Failure {
    pub message: Seq<char>,
    pub offset: int,
}

pub open spec fn token_view(t: Token) -> TokenView {
    match t {
        Token::LeftParen => TokenView::LeftParen,
        Token::RightParen => TokenView::RightParen,
        Token::Dot => TokenView::Dot,
        Token::Quote => TokenView::Quote,
        Token::QuasiQuote => TokenView::QuasiQuote,
        Token::Unquote => TokenView::Unquote,
        Token::UnquoteSplicing => TokenView::UnquoteSplicing,
        Token::VectorPrefix => TokenView::VectorPrefix,
        Token::ByteVectorPrefix => TokenView::ByteVectorPrefix,
        Token::Boolean(b) => TokenView::Boolean(b),
        Token::Character(c) => TokenView::Character(c),
        Token::Number(n) => TokenView::Number(number_view(n)),
        Token::String(s) => TokenView::String(s@),
        Token::DatumComment => TokenView::DatumComment,
        Token::Eof => TokenView::Eof,
        Token::Symbol(s) => TokenView::Symbol(s@),
    }
}

pub open spec fn spanned_view(t: SpannedToken) -> SpannedView {
    SpannedView { token: token_view(t.token), span: t.span }
}

pub open spec fn spanned_views(v: Seq<SpannedToken>) -> Seq<SpannedView> {
    Seq::new(v.len(), |i: int| spanned_view(v[i]))
}

pub open spec fn lex_error_view(e: LexError) -> ErrorView {
    ErrorView { message: e.message@, span: e.span }
}

/// The model of what [`crate::lexer::tokenize`] returns.
pub open spec fn tokens_result(r: Result<Vec<SpannedToken>, LexError>) -> Result<
    Seq<SpannedView>,
    ErrorView,
> {
    match r {
        Ok(toks) => Ok(spanned_views(toks@)),
        Err(e) => Err(lex_error_view(e)),
    }
}

// ---- Positions ----

/// How many newlines stand before offset `n`.
pub open spec fn newlines(b: Seq<u8>, n: int) -> int
    decreases n,
{
    if n <= 0 {
        0
    } else if b[n - 1] == NEWLINE {
        newlines(b, n - 1) + 1
    } else {
        newlines(b, n - 1)
    }
}

/// The offset at which the line that holds offset `n` begins.
pub open spec fn line_start(b: Seq<u8>, n: int) -> int
    decreases n,
{
    if n <= 0 {
        0
    } else if b[n - 1] == NEWLINE {
        n
    } else {
        line_start(b, n - 1)
    }
}

/// The line that holds an offset begins no later than there, and there are no
/// more newlines than bytes before it.
pub proof fn lemma_position(b: Seq<u8>, n: int)
    requires
        0 <= n,
    ensures
        0 <= newlines(b, n) <= n,
        0 <= line_start(b, n) <= n,
    decreases n,
{
    if n > 0 {
        lemma_position(b, n - 1);
    }
}

/// A count as a `u32`, with the largest `u32` for all that do not fit.
pub open spec fn saturated(n: int) -> u32 {
    if n <= u32::MAX {
        n as u32
    } else {
        u32::MAX
    }
}

/// The position of offset `n`: lines and columns count from one, a column
/// being a byte.
pub open spec fn span_at(b: Seq<u8>, n: int) -> Span {
    Span {
        line: saturated(1 + newlines(b, n)),
        column: saturated(1 + n - line_start(b, n)),
        offset: n as usize,
    }
}

/// A failure as an error with its position.
pub open spec fn error_at(b: Seq<u8>, f: Failure) -> ErrorView {
    ErrorView { message: f.message, span: span_at(b, f.offset) }
}

// ---- Runs of bytes ----

/// The byte at offset `i`, if the source reaches that far.
pub open spec fn byte_at(b: Seq<u8>, i: int) -> Option<u8> {
    if 0 <= i < b.len() {
        Some(b[i])
    } else {
        None
    }
}

/// Kinds of bytes that form runs.
pub enum ByteClass {
    Digit,
    HexDigit,
    Letter,
    NotNewline,
    NotSemicolon,
}

pub open spec fn is_digit(c: u8) -> bool {
    DIGIT_0 <= c <= DIGIT_9
}

pub open spec fn is_letter(c: u8) -> bool {
    LOWER_A <= c <= LOWER_Z || UPPER_A <= c <= UPPER_Z
}

pub open spec fn is_hex_digit(c: u8) -> bool {
    is_digit(c) || LOWER_A <= c <= LOWER_F || UPPER_A <= c <= UPPER_F
}

pub open spec fn in_class(class: ByteClass, c: u8) -> bool {
    match class {
        ByteClass::Digit => is_digit(c),
        ByteClass::HexDigit => is_hex_digit(c),
        ByteClass::Letter => is_letter(c),
        ByteClass::NotNewline => c != NEWLINE,
        ByteClass::NotSemicolon => c != SEMICOLON,
    }
}

/// Where the longest run of bytes of a class that begins at `i` ends.
pub open spec fn run_end(b: Seq<u8>, i: int, class: ByteClass) -> int
    decreases b.len() - i,
{
    if 0 <= i < b.len() && in_class(class, b[i]) {
        run_end(b, i + 1, class)
    } else {
        i
    }
}

/// A run ends no earlier than it begins, inside the source, and at its end
/// stands no byte of the class.
pub proof fn lemma_run_end(b: Seq<u8>, i: int, class: ByteClass)
    requires
        0 <= i <= b.len(),
    ensures
        i <= run_end(b, i, class) <= b.len(),
        run_end(b, i, class) < b.len() ==> !in_class(class, b[run_end(b, i, class)]),
        forall|k: int| i <= k < run_end(b, i, class) ==> in_class(class, #[trigger] b[k]),
    decreases b.len() - i,
{
    if i < b.len() && in_class(class, b[i]) {
        lemma_run_end(b, i + 1, class);
    }
}

/// Whether `word` stands at offset `i`.
pub open spec fn word_at(b: Seq<u8>, i: int, word: Seq<char>) -> bool {
    0 <= i && i + word.len() <= b.len() && byte_text(b.subrange(i, i + word.len())) == word
}

// ---- Symbols ----

/// Whether a symbol ends before `next`, the byte that follows, if any.
pub open spec fn symbol_terminator(next: Option<u8>) -> bool {
    match next {
        None => true,
        Some(c) => {
            ||| c == SPACE
            ||| c == TAB
            ||| c == RETURN
            ||| c == NEWLINE
            ||| c == OPEN_PAREN
            ||| c == CLOSE_PAREN
            ||| c == DOUBLE_QUOTE
            ||| c == SEMICOLON
            ||| c == APOSTROPHE
            ||| c == BACKQUOTE
            ||| c == COMMA
        },
    }
}

/// Where a symbol that goes on at `i` ends: at the next terminator outside an
/// inline hex escape `\x...;`. An escape without its semicolon is an error at
/// its backslash.
pub open spec fn symbol_end(b: Seq<u8>, i: int) -> Result<int, Failure>
    decreases b.len() - i,
{
    if symbol_terminator(byte_at(b, i)) {
        Ok(i)
    } else if b[i] == BACKSLASH && byte_at(b, i + 1) == Some(LOWER_X) {
        let semicolon = run_end(b, i + 2, ByteClass::NotSemicolon);
        if semicolon >= b.len() {
            Err(Failure { message: "unterminated inline hex escape"@, offset: i })
        } else {
            proof {
                lemma_run_end(b, i + 2, ByteClass::NotSemicolon);
            }
            symbol_end(b, semicolon + 1)
        }
    } else {
        symbol_end(b, i + 1)
    }
}

/// The symbol at `i`: its text and where it ends.
pub open spec fn symbol_at(b: Seq<u8>, i: int) -> Result<(Seq<char>, int), Failure> {
    match symbol_end(b, i) {
        Ok(end) => Ok((text_of(b.subrange(i, end)), end)),
        Err(f) => Err(f),
    }
}

// ---- Numbers ----

/// Past the sign at `i`, if there is one.
pub open spec fn sign_end(b: Seq<u8>, i: int) -> int {
    if byte_at(b, i) == Some(PLUS) || byte_at(b, i) == Some(MINUS) {
        i + 1
    } else {
        i
    }
}

/// How far a numeral has been followed, and what it holds so far.
pub struct Numeral {
    pub end: int,
    pub digits: bool,
    pub dot: bool,
    pub exponent: bool,
    pub hash: bool,
}

/// Follows a numeral as far as it goes: digits; one decimal point, before the
/// exponent; one exponent mark with an optional sign, after a digit; and `#`
/// after a digit.
pub open spec fn numeral_from(b: Seq<u8>, n: Numeral) -> Numeral
    decreases b.len() - n.end,
{
    match byte_at(b, n.end) {
        None => n,
        Some(c) => if is_digit(c) {
            numeral_from(b, Numeral { end: n.end + 1, digits: true, ..n })
        } else if c == POINT && !n.dot && !n.exponent {
            numeral_from(b, Numeral { end: n.end + 1, dot: true, ..n })
        } else if (c == LOWER_E || c == UPPER_E) && n.digits && !n.exponent {
            numeral_from(b, Numeral { end: sign_end(b, n.end + 1), exponent: true, ..n })
        } else if c == HASH && n.digits {
            numeral_from(b, Numeral { end: n.end + 1, hash: true, ..n })
        } else {
            n
        },
    }
}

/// The numeral at `i`.
pub open spec fn numeral_at(b: Seq<u8>, i: int) -> Numeral {
    numeral_from(
        b,
        Numeral {
            end: sign_end(b, i),
            digits: false,
            dot: false,
            exponent: false,
            hash: false,
        },
    )
}

/// The value of a sequence of decimal digits.
pub open spec fn digits_value(s: Seq<u8>) -> int
    decreases s.len(),
{
    if s.len() == 0 {
        0
    } else {
        digits_value(s.drop_last()) * 10 + (s.last() - DIGIT_0)
    }
}

/// More digits never make a value smaller.
pub proof fn lemma_digits_value_grows(s: Seq<u8>, n: int)
    requires
        0 <= n <= s.len(),
        forall|k: int| 0 <= k < s.len() ==> is_digit(#[trigger] s[k]),
    ensures
        0 <= digits_value(s.take(n)) <= digits_value(s),
    decreases s.len(),
{
    if n == s.len() {
        assert(s.take(n) =~= s);
        if s.len() > 0 {
            lemma_digits_value_grows(s.drop_last(), n - 1);
            assert(s.drop_last().take(n - 1) =~= s.drop_last());
        }
    } else {
        lemma_digits_value_grows(s.drop_last(), n);
        assert(s.drop_last().take(n) =~= s.take(n));
    }
}

/// The value of decimal digits behind an optional sign.
pub open spec fn integer_value(s: Seq<u8>) -> int {
    let magnitude = digits_value(s.subrange(sign_end(s, 0), s.len() as int));
    if byte_at(s, 0) == Some(MINUS) {
        -magnitude
    } else {
        magnitude
    }
}

/// Whether the rest of `s` from `i` is empty or an exponent: `e` or `E`, an
/// optional sign, and at least one digit.
pub open spec fn exponent_syntax(s: Seq<u8>, i: int) -> bool {
    i == s.len() || {
        let digits = sign_end(s, i + 1);
        &&& s[i] == LOWER_E || s[i] == UPPER_E
        &&& digits < s.len()
        &&& run_end(s, digits, ByteClass::Digit) == s.len()
    }
}

/// Whether `s` is a decimal literal: an optional sign, digits with an optional
/// point among, before or after them, and an optional exponent.
pub open spec fn decimal_syntax(s: Seq<u8>) -> bool {
    let whole = sign_end(s, 0);
    let whole_end = run_end(s, whole, ByteClass::Digit);
    if byte_at(s, whole_end) == Some(POINT) {
        let fraction_end = run_end(s, whole_end + 1, ByteClass::Digit);
        &&& whole < whole_end || whole_end + 1 < fraction_end
        &&& exponent_syntax(s, fraction_end)
    } else {
        whole < whole_end && exponent_syntax(s, whole_end)
    }
}

pub open spec fn lower(c: u8) -> u8 {
    if UPPER_A <= c <= UPPER_Z {
        (c + 32) as u8
    } else {
        c
    }
}

pub open spec fn lower_all(s: Seq<u8>) -> Seq<u8> {
    Seq::new(s.len(), |i: int| lower(s[i]))
}

/// The number at `i` and where it ends, if a number stands there. Bare digits
/// whose value fits are an exact integer; any other decimal literal is an
/// inexact real.
pub open spec fn number_at(b: Seq<u8>, i: int) -> Option<(NumberView, int)> {
    let n = numeral_at(b, i);
    let s = b.subrange(i, n.end);
    if !n.digits {
        None
    } else if !n.dot && !n.exponent && !n.hash && i64::MIN <= integer_value(s) <= i64::MAX {
        Some((NumberView::Fixnum(integer_value(s)), n.end))
    } else if decimal_syntax(s) {
        Some((NumberView::Flonum(byte_text(s)), n.end))
    } else {
        None
    }
}

// ---- Tokens that begin with `#` ----

/// The boolean literal at `i`, with the `#` standing there, and where it ends.
pub open spec fn boolean_at(b: Seq<u8>, i: int) -> Option<(bool, int)> {
    if word_at(b, i + 1, "true"@) && symbol_terminator(byte_at(b, i + 5)) {
        Some((true, i + 5))
    } else if word_at(b, i + 1, "false"@) && symbol_terminator(
        byte_at(b, i + 6),
    ) {
        Some((false, i + 6))
    } else if word_at(b, i + 1, "t"@) && symbol_terminator(byte_at(b, i + 2)) {
        Some((true, i + 2))
    } else if word_at(b, i + 1, "f"@) && symbol_terminator(byte_at(b, i + 2)) {
        Some((false, i + 2))
    } else {
        None
    }
}

/// Whether `#vu8(`, in any case, stands at `i`.
pub open spec fn bytevector_prefix_at(b: Seq<u8>, i: int) -> bool {
    &&& 0 <= i
    &&& i + 5 <= b.len()
    &&& byte_text(lower_all(b.subrange(i, i + 5))) == "#vu8("@
}

/// The character that a name stands for.
pub open spec fn character_named(name: Seq<char>) -> Option<char> {
    if name == "nul"@ {
        Some('\u{0000}')
    } else if name == "alarm"@ {
        Some('\u{0007}')
    } else if name == "backspace"@ {
        Some('\u{0008}')
    } else if name == "tab"@ {
        Some('\t')
    } else if name == "linefeed"@ || name == "newline"@ || name == "lf"@ {
        Some('\n')
    } else if name == "vtab"@ {
        Some('\u{000B}')
    } else if name == "page"@ {
        Some('\u{000C}')
    } else if name == "return"@ || name == "cr"@ {
        Some('\r')
    } else if name == "esc"@ {
        Some('\u{001B}')
    } else if name == "space"@ {
        Some(' ')
    } else if name == "delete"@ {
        Some('\u{007F}')
    } else {
        None
    }
}

/// The character literal whose body begins at `i`, behind `#\`, and where it
/// ends: a run of two or more letters that names a character, or one byte.
pub open spec fn character_at(b: Seq<u8>, i: int) -> Result<(char, int), Failure> {
    let name_end = run_end(b, i, ByteClass::Letter);
    if i >= b.len() {
        Err(Failure { message: "unexpected end of input in character literal"@, offset: i })
    } else if name_end > i + 1 && character_named(byte_text(b.subrange(i, name_end))) is Some {
        Ok((character_named(byte_text(b.subrange(i, name_end)))->0, name_end))
    } else {
        Ok((b[i] as char, i + 1))
    }
}

/// Where a block comment ends that is `depth` levels deep at `i`.
pub open spec fn block_comment_end(b: Seq<u8>, i: int, depth: nat) -> Option<int>
    decreases b.len() - i,
{
    if depth == 0 {
        Some(i)
    } else if byte_at(b, i) is None {
        None
    } else if b[i] == HASH && byte_at(b, i + 1) == Some(BAR) {
        block_comment_end(b, i + 2, depth + 1)
    } else if b[i] == BAR && byte_at(b, i + 1) == Some(HASH) {
        block_comment_end(b, i + 2, (depth - 1) as nat)
    } else {
        block_comment_end(b, i + 1, depth)
    }
}

// ---- Strings ----

/// The value of a hexadecimal digit.
pub open spec fn hex_digit_value(c: u8) -> int {
    if is_digit(c) {
        c - DIGIT_0
    } else if LOWER_A <= c <= LOWER_F {
        c - LOWER_A + 10
    } else {
        c - UPPER_A + 10
    }
}

/// The value of a sequence of hexadecimal digits.
pub open spec fn hex_value(s: Seq<u8>) -> int
    decreases s.len(),
{
    if s.len() == 0 {
        0
    } else {
        hex_value(s.drop_last()) * 16 + hex_digit_value(s.last())
    }
}

/// The character of a hex escape whose digits begin at `i`, and where the
/// escape ends, behind its semicolon.
pub open spec fn hex_escape_at(b: Seq<u8>, i: int) -> Result<(char, int), Failure> {
    let end = run_end(b, i, ByteClass::HexDigit);
    let value = hex_value(b.subrange(i, end));
    if end < b.len() && b[end] != SEMICOLON {
        Err(Failure { message: "invalid hex escape in string"@, offset: end })
    } else if end == i || end >= b.len() {
        Err(Failure { message: "malformed hex escape in string"@, offset: end })
    } else if !is_scalar_value(value) {
        Err(Failure { message: "invalid scalar value in string escape"@, offset: end + 1 })
    } else {
        Ok((value as char, end + 1))
    }
}

/// What a backslash and the byte `c` stand for in a string, the hex escape
/// aside.
pub open spec fn simple_escape(c: u8) -> Option<char> {
    if c == DOUBLE_QUOTE {
        Some('"')
    } else if c == BACKSLASH {
        Some('\\')
    } else if c == LOWER_N {
        Some('\n')
    } else if c == LOWER_T {
        Some('\t')
    } else if c == LOWER_R {
        Some('\r')
    } else if c == LOWER_A {
        Some('\u{0007}')
    } else if c == LOWER_B {
        Some('\u{0008}')
    } else if c == LOWER_F {
        Some('\u{000C}')
    } else if c == LOWER_V {
        Some('\u{000B}')
    } else {
        None
    }
}

/// The escape whose backslash stands just before `i`, in the string that
/// begins at `start`: its character, and where it ends.
pub open spec fn escape_at(b: Seq<u8>, start: int, i: int) -> Result<(char, int), Failure> {
    match byte_at(b, i) {
        None => Err(Failure { message: "unterminated string escape"@, offset: start }),
        Some(c) => match simple_escape(c) {
            Some(x) => Ok((x, i + 1)),
            None => if c == LOWER_X {
                hex_escape_at(b, i + 1)
            } else {
                Err(
                    Failure {
                        message: "unknown string escape \\"@.push(c as char),
                        offset: i + 1,
                    },
                )
            },
        },
    }
}

/// An escape ends behind the byte that follows its backslash.
pub proof fn lemma_escape_end(b: Seq<u8>, start: int, i: int)
    requires
        0 <= i,
    ensures
        escape_at(b, start, i) matches Ok((_, end)) ==> i < end <= b.len(),
{
    if i < b.len() {
        lemma_run_end(b, i + 1, ByteClass::HexDigit);
    }
}

/// The rest, from `i`, of the string literal whose contents begin at `start`:
/// its characters, and where it ends, behind the closing quote. A byte outside
/// an escape stands for the character with its number.
pub open spec fn string_from(b: Seq<u8>, start: int, i: int) -> Result<(Seq<char>, int), Failure>
    decreases b.len() - i,
{
    if byte_at(b, i) is None {
        Err(Failure { message: "unterminated string"@, offset: start })
    } else if b[i] == DOUBLE_QUOTE {
        Ok((Seq::empty(), i + 1))
    } else if b[i] == BACKSLASH {
        match escape_at(b, start, i + 1) {
            Err(f) => Err(f),
            Ok((c, next)) => {
                proof {
                    lemma_escape_end(b, start, i + 1);
                }
                preceded_by(seq![c], string_from(b, start, next))
            },
        }
    } else {
        preceded_by(seq![b[i] as char], string_from(b, start, i + 1))
    }
}

/// The rest of a string behind the characters before it.
pub open spec fn preceded_by(
    before: Seq<char>,
    rest: Result<(Seq<char>, int), Failure>,
) -> Result<(Seq<char>, int), Failure> {
    match rest {
        Ok((s, end)) => Ok((before + s, end)),
        Err(f) => Err(f),
    }
}

// ---- Whole sources ----

/// What stands at one place of a source.
pub enum Lexeme {
    /// Whitespace or a comment, up to an offset.
    Blank(int),
    /// A token, up to an offset.
    Token(TokenView, int),
    /// An error.
    Bad(Failure),
}

/// A symbol as a lexeme.
pub open spec fn symbol_lexeme(b: Seq<u8>, i: int) -> Lexeme {
    match symbol_at(b, i) {
        Ok((text, end)) => Lexeme::Token(TokenView::Symbol(text), end),
        Err(f) => Lexeme::Bad(f),
    }
}

/// The lexeme at `i`, with a `#` standing there.
pub open spec fn hash_lexeme(b: Seq<u8>, i: int) -> Lexeme {
    let next = byte_at(b, i + 1);
    if next == Some(BAR) {
        match block_comment_end(b, i + 2, 1) {
            Some(end) => Lexeme::Blank(end),
            None => Lexeme::Bad(
                Failure { message: "unterminated block comment"@, offset: i },
            ),
        }
    } else if next == Some(SEMICOLON) {
        Lexeme::Token(TokenView::DatumComment, i + 2)
    } else if next == Some(OPEN_PAREN) {
        Lexeme::Token(TokenView::VectorPrefix, i + 2)
    } else if next == Some(BACKSLASH) {
        match character_at(b, i + 2) {
            Ok((c, end)) => Lexeme::Token(TokenView::Character(c), end),
            Err(f) => Lexeme::Bad(f),
        }
    } else if bytevector_prefix_at(b, i) {
        Lexeme::Token(TokenView::ByteVectorPrefix, i + 5)
    } else {
        match boolean_at(b, i) {
            Some((value, end)) => Lexeme::Token(TokenView::Boolean(value), end),
            None => symbol_lexeme(b, i),
        }
    }
}

/// The lexeme at `i`, with a digit, a sign or a point standing there.
pub open spec fn number_lexeme(b: Seq<u8>, i: int) -> Lexeme {
    if b[i] == POINT && symbol_terminator(byte_at(b, i + 1)) {
        Lexeme::Token(TokenView::Dot, i + 1)
    } else {
        match number_at(b, i) {
            Some((n, end)) => Lexeme::Token(TokenView::Number(n), end),
            None => symbol_lexeme(b, i),
        }
    }
}

/// The lexeme at `i`.
pub open spec fn lexeme_at(b: Seq<u8>, i: int) -> Lexeme
    recommends
        0 <= i < b.len(),
{
    let c = b[i];
    if c == SPACE || c == TAB || c == RETURN || c == NEWLINE {
        Lexeme::Blank(i + 1)
    } else if c == SEMICOLON {
        Lexeme::Blank(run_end(b, i, ByteClass::NotNewline))
    } else if c == HASH {
        hash_lexeme(b, i)
    } else if c == OPEN_PAREN {
        Lexeme::Token(TokenView::LeftParen, i + 1)
    } else if c == CLOSE_PAREN {
        Lexeme::Token(TokenView::RightParen, i + 1)
    } else if c == APOSTROPHE {
        Lexeme::Token(TokenView::Quote, i + 1)
    } else if c == BACKQUOTE {
        Lexeme::Token(TokenView::QuasiQuote, i + 1)
    } else if c == COMMA {
        if byte_at(b, i + 1) == Some(AT_SIGN) {
            Lexeme::Token(TokenView::UnquoteSplicing, i + 2)
        } else {
            Lexeme::Token(TokenView::Unquote, i + 1)
        }
    } else if c == DOUBLE_QUOTE {
        match string_from(b, i + 1, i + 1) {
            Ok((s, end)) => Lexeme::Token(TokenView::String(s), end),
            Err(f) => Lexeme::Bad(f),
        }
    } else if is_digit(c) || c == PLUS || c == MINUS || c == POINT {
        number_lexeme(b, i)
    } else {
        symbol_lexeme(b, i)
    }
}

/// The tokens of the source from `i` on, the end of input last.
pub open spec fn tokens_from(b: Seq<u8>, i: int) -> Result<Seq<SpannedView>, ErrorView>
    decreases b.len() - i,
{
    if byte_at(b, i) is None {
        Ok(seq![SpannedView { token: TokenView::Eof, span: span_at(b, i) }])
    } else {
        proof {
            lemma_lexeme_end(b, i);
        }
        match lexeme_at(b, i) {
            Lexeme::Blank(end) => tokens_from(b, end),
            Lexeme::Token(token, end) => with_tokens(
                seq![SpannedView { token, span: span_at(b, i) }],
                tokens_from(b, end),
            ),
            Lexeme::Bad(f) => Err(error_at(b, f)),
        }
    }
}

/// The rest of a token sequence behind the tokens before it.
pub open spec fn with_tokens(
    before: Seq<SpannedView>,
    rest: Result<Seq<SpannedView>, ErrorView>,
) -> Result<Seq<SpannedView>, ErrorView> {
    match rest {
        Ok(after) => Ok(before + after),
        Err(e) => Err(e),
    }
}

/// The tokens of a source, or the first lexical error in it.
pub open spec fn tokens(b: Seq<u8>) -> Result<Seq<SpannedView>, ErrorView> {
    tokens_from(b, 0)
}

// ---- Lexemes make progress ----

/// A symbol ends inside the source, and holds at least the byte it begins
/// with, if that is no terminator; an error in it lies inside the source.
pub proof fn lemma_symbol_end(b: Seq<u8>, i: int)
    requires
        0 <= i <= b.len(),
    ensures
        symbol_end(b, i) matches Ok(end) ==> i <= end <= b.len() && symbol_terminator(
            byte_at(b, end),
        ),
        symbol_end(b, i) matches Ok(end) ==> !symbol_terminator(byte_at(b, i)) ==> i < end,
        symbol_end(b, i) matches Err(f) ==> i <= f.offset < b.len(),
    decreases b.len() - i,
{
    if symbol_terminator(byte_at(b, i)) {
    } else if b[i] == BACKSLASH && byte_at(b, i + 1) == Some(LOWER_X) {
        lemma_run_end(b, i + 2, ByteClass::NotSemicolon);
        let semicolon = run_end(b, i + 2, ByteClass::NotSemicolon);
        if semicolon < b.len() {
            lemma_symbol_end(b, semicolon + 1);
        }
    } else {
        lemma_symbol_end(b, i + 1);
    }
}

/// A numeral ends inside the source, no earlier than it has been followed, and
/// holds a digit only if it has gone on or held one before.
pub proof fn lemma_numeral_from(b: Seq<u8>, n: Numeral)
    requires
        0 <= n.end <= b.len(),
    ensures
        n.end <= numeral_from(b, n).end <= b.len(),
        numeral_from(b, n).digits ==> n.digits || n.end < numeral_from(b, n).end,
    decreases b.len() - n.end,
{
    match byte_at(b, n.end) {
        None => {},
        Some(c) => if is_digit(c) {
            lemma_numeral_from(b, Numeral { end: n.end + 1, digits: true, ..n });
        } else if c == POINT && !n.dot && !n.exponent {
            lemma_numeral_from(b, Numeral { end: n.end + 1, dot: true, ..n });
        } else if (c == LOWER_E || c == UPPER_E) && n.digits && !n.exponent {
            lemma_numeral_from(
                b,
                Numeral { end: sign_end(b, n.end + 1), exponent: true, ..n },
            );
        } else if c == HASH && n.digits {
            lemma_numeral_from(b, Numeral { end: n.end + 1, hash: true, ..n });
        },
    }
}

/// A closed block comment ends inside the source.
pub proof fn lemma_block_comment_end(b: Seq<u8>, i: int, depth: nat)
    requires
        0 <= i <= b.len(),
    ensures
        block_comment_end(b, i, depth) matches Some(end) ==> i <= end <= b.len(),
    decreases b.len() - i,
{
    if depth == 0 || i == b.len() {
    } else if b[i] == HASH && byte_at(b, i + 1) == Some(BAR) {
        lemma_block_comment_end(b, i + 2, depth + 1);
    } else if b[i] == BAR && byte_at(b, i + 1) == Some(HASH) {
        lemma_block_comment_end(b, i + 2, (depth - 1) as nat);
    } else {
        lemma_block_comment_end(b, i + 1, depth);
    }
}

/// A string literal ends inside the source; so lies an error in one.
pub proof fn lemma_string_end(b: Seq<u8>, start: int, i: int)
    requires
        0 <= start <= i <= b.len(),
    ensures
        string_from(b, start, i) matches Ok((_, end)) ==> i < end <= b.len(),
        string_from(b, start, i) matches Err(f) ==> 0 <= f.offset <= b.len(),
    decreases b.len() - i,
{
    if i == b.len() || b[i] == DOUBLE_QUOTE {
    } else if b[i] == BACKSLASH {
        lemma_escape_end(b, start, i + 1);
        if i + 1 < b.len() {
            lemma_run_end(b, i + 2, ByteClass::HexDigit);
        }
        if let Ok((c, next)) = escape_at(b, start, i + 1) {
            lemma_string_end(b, start, next);
        }
    } else {
        lemma_string_end(b, start, i + 1);
    }
}

/// A lexeme holds at least one byte and ends inside the source; an error lies
/// inside the source.
pub proof fn lemma_lexeme_end(b: Seq<u8>, i: int)
    requires
        0 <= i < b.len(),
    ensures
        lexeme_at(b, i) matches Lexeme::Blank(end) ==> i < end <= b.len(),
        lexeme_at(b, i) matches Lexeme::Token(_, end) ==> i < end <= b.len(),
        lexeme_at(b, i) matches Lexeme::Bad(f) ==> 0 <= f.offset <= b.len(),
{
    reveal_strlit("true");
    reveal_strlit("false");
    reveal_strlit("t");
    reveal_strlit("f");
    lemma_run_end(b, i, ByteClass::NotNewline);
    lemma_symbol_end(b, i);
    if i + 1 < b.len() {
        lemma_block_comment_end(b, i + 2, 1);
        lemma_run_end(b, i + 2, ByteClass::Letter);
    }
    lemma_string_end(b, i + 1, i + 1);
    lemma_numeral_from(
        b,
        Numeral {
            end: sign_end(b, i),
            digits: false,
            dot: false,
            exponent: false,
            hash: false,
        },
    );
}

} // verus!
