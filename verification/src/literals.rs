//! Strings, characters, booleans, symbols and marks by their parts, and the
//! errors in them.

use crate::ascii::{
    APOSTROPHE, AT_SIGN, BACKQUOTE, BACKSLASH, BAR, CLOSE_PAREN, COMMA, DOUBLE_QUOTE, HASH,
    LOWER_A, LOWER_B, LOWER_F, LOWER_N, LOWER_R, LOWER_T, LOWER_V, LOWER_X, MINUS, NEWLINE,
    OPEN_PAREN, PLUS, POINT, RETURN, SEMICOLON, SPACE, TAB,
};
use crate::laws;
use crate::lexical;
use crate::lexical::{ByteClass, Failure, Lexeme, TokenView};
use crate::numerals;
use crate::spelling;
use crate::surroundings;
use crate::text;
use vstd::prelude::*;

verus! {

// ---- Marks ----

/// The marks of one and two bytes, wherever they stand and whatever follows.
pub proof fn law_marks(b: Seq<u8>, i: int)
    requires
        0 <= i < b.len(),
    ensures
        b[i] == OPEN_PAREN ==> lexical::lexeme_at(b, i) == Lexeme::Token(
            TokenView::LeftParen,
            i + 1,
        ),
        b[i] == CLOSE_PAREN ==> lexical::lexeme_at(b, i) == Lexeme::Token(
            TokenView::RightParen,
            i + 1,
        ),
        b[i] == APOSTROPHE ==> lexical::lexeme_at(b, i) == Lexeme::Token(TokenView::Quote, i + 1),
        b[i] == BACKQUOTE ==> lexical::lexeme_at(b, i) == Lexeme::Token(
            TokenView::QuasiQuote,
            i + 1,
        ),
        b[i] == COMMA && i + 1 < b.len() && b[i + 1] == AT_SIGN ==> lexical::lexeme_at(b, i)
            == Lexeme::Token(TokenView::UnquoteSplicing, i + 2),
        b[i] == COMMA && !(i + 1 < b.len() && b[i + 1] == AT_SIGN) ==> lexical::lexeme_at(b, i)
            == Lexeme::Token(TokenView::Unquote, i + 1),
        b[i] == HASH && i + 1 < b.len() && b[i + 1] == OPEN_PAREN ==> lexical::lexeme_at(b, i)
            == Lexeme::Token(TokenView::VectorPrefix, i + 2),
        b[i] == HASH && i + 1 < b.len() && b[i + 1] == SEMICOLON ==> lexical::lexeme_at(b, i)
            == Lexeme::Token(TokenView::DatumComment, i + 2),
        b[i] == SPACE || b[i] == TAB || b[i] == RETURN || b[i] == NEWLINE ==> lexical::lexeme_at(
            b,
            i,
        ) == Lexeme::Blank(i + 1),
{
}

/// The prefix of a bytevector, with its letters in either case, wherever it
/// stands and whatever follows.
pub proof fn law_bytevector_prefix(b: Seq<u8>, i: int)
    requires
        0 <= i,
        i + 5 <= b.len(),
        b[i] == 0x23,
        b[i + 1] == 0x76 || b[i + 1] == 0x56,
        b[i + 2] == 0x75 || b[i + 2] == 0x55,
        b[i + 3] == 0x38,
        b[i + 4] == 0x28,
    ensures
        lexical::lexeme_at(b, i) == Lexeme::Token(TokenView::ByteVectorPrefix, i + 5),
{
    reveal_strlit("#vu8(");
    let low = lexical::lower_all(b.subrange(i, i + 5));
    assert(text::byte_text(low) =~= "#vu8("@) by {
        assert(low[0] == 0x23);
        assert(low[1] == 0x76);
        assert(low[2] == 0x75);
        assert(low[3] == 0x38);
        assert(low[4] == 0x28);
    }
}

// ---- Strings ----

/// A part of a string literal and the character that it stands for.
pub struct Piece {
    pub bytes: Seq<u8>,
    pub character: char,
}

/// Whether a hexadecimal digit, in either case, has the value `v`.
pub open spec fn hex_figure(c: u8, v: nat) -> bool {
    ||| v < 10 && c == 0x30 + v
    ||| 10 <= v < 16 && c == 0x61 + v - 10
    ||| 10 <= v < 16 && c == 0x41 + v - 10
}

/// Whether hexadecimal digits write the number `n`.
pub open spec fn hex_writes(s: Seq<u8>, n: nat) -> bool
    decreases s.len(),
{
    if s.len() == 0 {
        n == 0
    } else {
        hex_figure(s.last(), n % 16) && hex_writes(s.drop_last(), n / 16)
    }
}

/// Whether the byte behind a backslash stands for a character.
pub open spec fn escape_means(c: u8, character: char) -> bool {
    ||| c == DOUBLE_QUOTE && character as int == 0x22
    ||| c == BACKSLASH && character as int == 0x5C
    ||| c == LOWER_N && character as int == 0x0A
    ||| c == LOWER_T && character as int == 0x09
    ||| c == LOWER_R && character as int == 0x0D
    ||| c == LOWER_A && character as int == 0x07
    ||| c == LOWER_B && character as int == 0x08
    ||| c == LOWER_F && character as int == 0x0C
    ||| c == LOWER_V && character as int == 0x0B
}

/// Whether a piece stands for its character: a byte other than the quote and
/// the backslash for the character with its number, an escape for what it names,
/// and `\x`, hexadecimal digits and `;` for the character with that number.
pub open spec fn is_piece(p: Piece) -> bool {
    ||| p.bytes.len() == 1 && p.bytes[0] != DOUBLE_QUOTE && p.bytes[0] != BACKSLASH && p.bytes[0]
        == p.character as int
    ||| p.bytes.len() == 2 && p.bytes[0] == BACKSLASH && escape_means(p.bytes[1], p.character)
    ||| p.bytes.len() > 3 && p.bytes[0] == BACKSLASH && p.bytes[1] == LOWER_X && p.bytes.last()
        == SEMICOLON && hex_writes(p.bytes.subrange(2, p.bytes.len() - 1), p.character as nat)
}

pub open spec fn all_pieces(ps: Seq<Piece>) -> bool {
    forall|k: int| 0 <= k < ps.len() ==> is_piece(#[trigger] ps[k])
}

/// The bytes of pieces one behind the other.
pub open spec fn bytes_of(ps: Seq<Piece>) -> Seq<u8>
    decreases ps.len(),
{
    if ps.len() == 0 {
        Seq::empty()
    } else {
        ps[0].bytes + bytes_of(ps.drop_first())
    }
}

/// The characters that pieces stand for.
pub open spec fn characters_of(ps: Seq<Piece>) -> Seq<char> {
    Seq::new(ps.len(), |k: int| ps[k].character)
}

proof fn lemma_hex_writes(s: Seq<u8>, n: nat)
    requires
        hex_writes(s, n),
    ensures
        lexical::hex_value(s) == n,
        forall|k: int| 0 <= k < s.len() ==> lexical::is_hex_digit(#[trigger] s[k]),
    decreases s.len(),
{
    if s.len() > 0 {
        lemma_hex_writes(s.drop_last(), n / 16);
        assert forall|k: int| 0 <= k < s.len() implies lexical::is_hex_digit(#[trigger] s[k]) by {
            if k < s.len() - 1 {
                assert(s[k] == s.drop_last()[k]);
            }
        }
    }
}

/// One piece at `i` inside a string literal.
proof fn lemma_piece(b: Seq<u8>, start: int, i: int, p: Piece)
    requires
        is_piece(p),
        0 <= i,
        i + p.bytes.len() <= b.len(),
        b.subrange(i, i + p.bytes.len()) == p.bytes,
    ensures
        lexical::string_from(b, start, i) == lexical::preceded_by(
            seq![p.character],
            lexical::string_from(b, start, i + p.bytes.len()),
        ),
        p.bytes.len() > 0,
{
    let n = p.bytes.len() as int;
    assert forall|k: int| 0 <= k < n implies #[trigger] p.bytes[k] == b[i + k] by {
        assert(b.subrange(i, i + n)[k] == b[i + k]);
    }
    assert(p.bytes[0] == b[i + 0]);
    if n == 1 {
        assert(b[i] as char == p.character);
    } else if n == 2 {
        assert(p.bytes[1] == b[i + 1]);
    } else {
        assert(p.bytes[1] == b[i + 1]);
        assert(p.bytes[n - 1] == b[i + (n - 1)]);
        let h = p.bytes.subrange(2, n - 1);
        lemma_hex_writes(h, p.character as nat);
        let end = i + n - 1;
        assert(b.subrange(i + 2, end) =~= h);
        assert forall|k: int| i + 2 <= k < end implies lexical::in_class(
            ByteClass::HexDigit,
            #[trigger] b[k],
        ) by {
            assert(h[k - i - 2] == p.bytes[k - i]);
            assert(p.bytes[k - i] == b[i + (k - i)]);
        }
        laws::lemma_run_of(b, i + 2, end, ByteClass::HexDigit);
        assert(text::is_scalar_value(p.character as int));
        assert((p.character as int) as char == p.character);
    }
}

/// Pieces from `i` on inside a string literal.
proof fn lemma_pieces(b: Seq<u8>, start: int, i: int, ps: Seq<Piece>)
    requires
        all_pieces(ps),
        0 <= i,
        i + bytes_of(ps).len() <= b.len(),
        b.subrange(i, i + bytes_of(ps).len()) == bytes_of(ps),
    ensures
        lexical::string_from(b, start, i) == lexical::preceded_by(
            characters_of(ps),
            lexical::string_from(b, start, i + bytes_of(ps).len()),
        ),
    decreases ps.len(),
{
    let whole = bytes_of(ps);
    if ps.len() == 0 {
        if let Ok((s, end)) = lexical::string_from(b, start, i) {
            assert(characters_of(ps) + s =~= s);
        }
    } else {
        let p = ps[0];
        let others = ps.drop_first();
        let m = p.bytes.len() as int;
        assert(whole == p.bytes + bytes_of(others));
        assert(b.subrange(i, i + m) =~= whole.subrange(0, m));
        assert(whole.subrange(0, m) =~= p.bytes);
        assert(b.subrange(i + m, i + m + bytes_of(others).len()) =~= whole.subrange(
            m,
            whole.len() as int,
        ));
        assert(whole.subrange(m, whole.len() as int) =~= bytes_of(others));
        lemma_piece(b, start, i, p);
        lemma_pieces(b, start, i + m, others);
        if let Ok((s, end)) = lexical::string_from(b, start, i + whole.len()) {
            assert(seq![p.character] + (characters_of(others) + s) =~= characters_of(ps) + s);
        }
    }
}

/// Pieces between quotes are the string of their characters, whatever follows.
pub proof fn law_strings(ps: Seq<Piece>, rest: Seq<u8>)
    requires
        all_pieces(ps),
    ensures
        lexical::lexeme_at(
            seq![DOUBLE_QUOTE] + bytes_of(ps) + seq![DOUBLE_QUOTE] + rest,
            0,
        ) == Lexeme::Token(
            TokenView::String(characters_of(ps)),
            (bytes_of(ps).len() + 2) as int,
        ),
{
    let b = seq![DOUBLE_QUOTE] + bytes_of(ps) + seq![DOUBLE_QUOTE] + rest;
    let n = bytes_of(ps).len() as int;
    assert(b.subrange(1, 1 + n) =~= bytes_of(ps));
    lemma_pieces(b, 1, 1, ps);
    assert(b[1 + n] == DOUBLE_QUOTE);
    assert(lexical::string_from(b, 1, 1 + n) == Ok::<_, Failure>((Seq::<char>::empty(), n + 2)));
    assert(characters_of(ps) + Seq::empty() =~= characters_of(ps));
}

/// What is wrong with the rest of a string literal, and how far on: the end of
/// the source, an unknown escape, or an escape by number that holds no digit,
/// something that is no digit, no end, or a number that no character has.
pub open spec fn string_error(rest: Seq<u8>, message: Seq<char>, place: int) -> bool {
    ||| rest.len() >= 2 && rest[0] == BACKSLASH && rest[1] != LOWER_X && (forall|c: char|
        !escape_means(rest[1], c)) && message == "unknown string escape \\"@.push(rest[1] as char)
        && place == 2
    ||| rest.len() > 2 && rest[0] == BACKSLASH && rest[1] == LOWER_X && {
        let h = rest.subrange(2, place);
        &&& 2 <= place < rest.len()
        &&& (exists|n: nat| hex_writes(h, n))
        &&& rest[place] != SEMICOLON
        &&& forall|v: nat| !hex_figure(rest[place], v)
        &&& message == "invalid hex escape in string"@
    }
    ||| rest.len() >= 2 && rest[0] == BACKSLASH && rest[1] == LOWER_X && place == rest.len() && (
    exists|n: nat| hex_writes(rest.subrange(2, place), n)) && message
        == "malformed hex escape in string"@
    ||| rest.len() > 2 && rest[0] == BACKSLASH && rest[1] == LOWER_X && rest[2] == SEMICOLON
        && place == 2 && message == "malformed hex escape in string"@
    ||| rest.len() > 3 && rest[0] == BACKSLASH && rest[1] == LOWER_X && 3 < place <= rest.len()
        && rest[place - 1] == SEMICOLON && (exists|n: nat|
        #[trigger] hex_writes(rest.subrange(2, place - 1), n) && (0xD7FF < n < 0xE000 || n
            > 0x10FFFF)) && message == "invalid scalar value in string escape"@
}

proof fn lemma_string_error(b: Seq<u8>, i: int, rest: Seq<u8>, message: Seq<char>, place: int)
    requires
        0 <= i <= b.len(),
        b.subrange(i, b.len() as int) == rest,
        string_error(rest, message, place),
    ensures
        lexical::string_from(b, 1, i) == Err::<(Seq<char>, int), _>(
            (Failure { message, offset: i + place }),
        ),
{
    assert forall|k: int| 0 <= k < rest.len() implies #[trigger] rest[k] == b[i + k] by {
        assert(b.subrange(i, b.len() as int)[k] == b[i + k]);
    }
    assert(rest[0] == b[i + 0]);
    assert(rest[1] == b[i + 1]);
    if rest[1] != LOWER_X {
        let c = rest[1];
        if lexical::simple_escape(c) is Some {
            assert(escape_means(c, lexical::simple_escape(c)->0));
        }
    } else if rest.len() > 2 && rest[2] == SEMICOLON {
        assert(rest[2] == b[i + 2]);
        laws::lemma_run_of(b, i + 2, i + 2, ByteClass::HexDigit);
        if place != 2 {
            assert(!lexical::is_hex_digit(SEMICOLON));
            let h = if rest[place - 1] == SEMICOLON && message
                == "invalid scalar value in string escape"@ {
                rest.subrange(2, place - 1)
            } else {
                rest.subrange(2, place)
            };
            if exists|n: nat| hex_writes(h, n) {
                let n = choose|n: nat| hex_writes(h, n);
                lemma_hex_writes(h, n);
                assert(h[0] == SEMICOLON);
                assert(false);
            }
        }
    } else {
        lemma_hex_error(b, i, rest, message, place);
    }
}

proof fn lemma_hex_error(b: Seq<u8>, i: int, rest: Seq<u8>, message: Seq<char>, place: int)
    requires
        0 <= i <= b.len(),
        b.subrange(i, b.len() as int) == rest,
        forall|k: int| 0 <= k < rest.len() ==> #[trigger] rest[k] == b[i + k],
        string_error(rest, message, place),
        rest.len() >= 2,
        b[i] == BACKSLASH,
        rest[1] == LOWER_X,
        b[i + 1] == LOWER_X,
        rest.len() > 2 ==> rest[2] != SEMICOLON,
    ensures
        lexical::string_from(b, 1, i) == Err::<(Seq<char>, int), _>(
            (Failure { message, offset: i + place }),
        ),
{
    let last = message == "invalid scalar value in string escape"@ && 3 < place <= rest.len()
        && rest[place - 1] == SEMICOLON && (exists|n: nat|
        #[trigger] hex_writes(rest.subrange(2, place - 1), n) && (0xD7FF < n < 0xE000 || n
            > 0x10FFFF));
    let end = if last {
        place - 1
    } else {
        place
    };
    let h = rest.subrange(2, end);
    let n = if last {
        choose|n: nat| #[trigger]
            hex_writes(h, n) && (0xD7FF < n < 0xE000 || n > 0x10FFFF)
    } else {
        choose|n: nat| hex_writes(h, n)
    };
    lemma_hex_writes(h, n);
    assert(b.subrange(i + 2, i + end) =~= h);
    assert forall|k: int| i + 2 <= k < i + end implies lexical::in_class(
        ByteClass::HexDigit,
        #[trigger] b[k],
    ) by {
        assert(h[k - i - 2] == rest[k - i]);
        assert(rest[k - i] == b[i + (k - i)]);
    }
    if end < rest.len() {
        let c = rest[end];
        assert(c == b[i + end]);
        if c != SEMICOLON && lexical::is_hex_digit(c) {
            let v = lexical::hex_digit_value(c);
            assert(hex_figure(c, v as nat));
        }
    }
    laws::lemma_run_of(b, i + 2, i + end, ByteClass::HexDigit);
    assert(lexical::escape_at(b, 1, i + 1) == lexical::hex_escape_at(b, i + 2));
}

/// An error behind pieces of a string literal is the error of the literal. A
/// string that the source ends in, in an escape or not, is an error at the
/// beginning of its contents.
pub proof fn law_string_errors(ps: Seq<Piece>, rest: Seq<u8>, message: Seq<char>, place: int)
    requires
        all_pieces(ps),
    ensures
        string_error(rest, message, place) ==> lexical::lexeme_at(
            seq![DOUBLE_QUOTE] + bytes_of(ps) + rest,
            0,
        ) == Lexeme::Bad(Failure { message, offset: 1 + bytes_of(ps).len() + place }),
        lexical::lexeme_at(seq![DOUBLE_QUOTE] + bytes_of(ps), 0) == Lexeme::Bad(
            Failure { message: "unterminated string"@, offset: 1 },
        ),
        lexical::lexeme_at(seq![DOUBLE_QUOTE] + bytes_of(ps) + seq![BACKSLASH], 0) == Lexeme::Bad(
            Failure { message: "unterminated string escape"@, offset: 1 },
        ),
{
    let n = bytes_of(ps).len() as int;
    if string_error(rest, message, place) {
        let b = seq![DOUBLE_QUOTE] + bytes_of(ps) + rest;
        assert(b.subrange(1, 1 + n) =~= bytes_of(ps));
        lemma_pieces(b, 1, 1, ps);
        assert(b.subrange(1 + n, b.len() as int) =~= rest);
        lemma_string_error(b, 1 + n, rest, message, place);
    }
    let b = seq![DOUBLE_QUOTE] + bytes_of(ps);
    assert(b.subrange(1, 1 + n) =~= bytes_of(ps));
    lemma_pieces(b, 1, 1, ps);
    assert(lexical::string_from(b, 1, 1 + n) is Err);
    let b = seq![DOUBLE_QUOTE] + bytes_of(ps) + seq![BACKSLASH];
    assert(b.subrange(1, 1 + n) =~= bytes_of(ps));
    lemma_pieces(b, 1, 1, ps);
    assert(b[1 + n] == BACKSLASH);
    assert(lexical::escape_at(b, 1, 2 + n) is Err);
    assert(lexical::string_from(b, 1, 1 + n) is Err);
}

// ---- Characters ----

/// Whether `c` is a letter of the ASCII alphabet.
pub open spec fn is_roman(c: u8) -> bool {
    0x41 <= c <= 0x5A || 0x61 <= c <= 0x7A
}

/// The names of characters.
pub open spec fn names_character(name: Seq<char>, character: char) -> bool {
    ||| name == "nul"@ && character as int == 0x00
    ||| name == "alarm"@ && character as int == 0x07
    ||| name == "backspace"@ && character as int == 0x08
    ||| name == "tab"@ && character as int == 0x09
    ||| name == "linefeed"@ && character as int == 0x0A
    ||| name == "newline"@ && character as int == 0x0A
    ||| name == "lf"@ && character as int == 0x0A
    ||| name == "vtab"@ && character as int == 0x0B
    ||| name == "page"@ && character as int == 0x0C
    ||| name == "return"@ && character as int == 0x0D
    ||| name == "cr"@ && character as int == 0x0D
    ||| name == "esc"@ && character as int == 0x1B
    ||| name == "space"@ && character as int == 0x20
    ||| name == "delete"@ && character as int == 0x7F
}

proof fn lemma_names(name: Seq<char>)
    ensures
        forall|c: char| #[trigger]
            names_character(name, c) ==> lexical::character_named(name) == Some(c) && name.len()
                > 1,
        lexical::character_named(name) matches Some(c) ==> names_character(name, c),
{
    lemma_told_apart();
    assert forall|c: char| #[trigger] names_character(name, c) implies lexical::character_named(
        name,
    ) == Some(c) && name.len() > 1 by {
        let d = lexical::character_named(name)->0;
        assert(names_character(name, d));
    }
}

/// No name of a character is the name of another one.
proof fn lemma_told_apart()
    ensures
        forall|name: Seq<char>, c: char, d: char|
            #![trigger names_character(name, c), names_character(name, d)]
            names_character(name, c) && names_character(name, d) ==> c == d && name.len() > 1,
{
    reveal_strlit("nul");
    reveal_strlit("alarm");
    reveal_strlit("backspace");
    reveal_strlit("tab");
    reveal_strlit("linefeed");
    reveal_strlit("newline");
    reveal_strlit("lf");
    reveal_strlit("vtab");
    reveal_strlit("page");
    reveal_strlit("return");
    reveal_strlit("cr");
    reveal_strlit("esc");
    reveal_strlit("space");
    reveal_strlit("delete");
    assert("nul"@.len() == 3);
    assert("nul"@[0] == 'n' && "nul"@[1] == 'u' && "nul"@[2] == 'l');
    assert("alarm"@.len() == 5);
    assert("alarm"@[0] == 'a' && "alarm"@[1] == 'l' && "alarm"@[2] == 'a');
    assert("backspace"@.len() == 9);
    assert("backspace"@[0] == 'b' && "backspace"@[1] == 'a' && "backspace"@[2] == 'c');
    assert("tab"@.len() == 3);
    assert("tab"@[0] == 't' && "tab"@[1] == 'a' && "tab"@[2] == 'b');
    assert("linefeed"@.len() == 8);
    assert("linefeed"@[0] == 'l' && "linefeed"@[1] == 'i' && "linefeed"@[2] == 'n');
    assert("newline"@.len() == 7);
    assert("newline"@[0] == 'n' && "newline"@[1] == 'e' && "newline"@[2] == 'w');
    assert("lf"@.len() == 2);
    assert("lf"@[0] == 'l' && "lf"@[1] == 'f');
    assert("vtab"@.len() == 4);
    assert("vtab"@[0] == 'v' && "vtab"@[1] == 't' && "vtab"@[2] == 'a');
    assert("page"@.len() == 4);
    assert("page"@[0] == 'p' && "page"@[1] == 'a' && "page"@[2] == 'g');
    assert("return"@.len() == 6);
    assert("return"@[0] == 'r' && "return"@[1] == 'e' && "return"@[2] == 't');
    assert("cr"@.len() == 2);
    assert("cr"@[0] == 'c' && "cr"@[1] == 'r');
    assert("esc"@.len() == 3);
    assert("esc"@[0] == 'e' && "esc"@[1] == 's' && "esc"@[2] == 'c');
    assert("space"@.len() == 5);
    assert("space"@[0] == 's' && "space"@[1] == 'p' && "space"@[2] == 'a');
    assert("delete"@.len() == 6);
    assert("delete"@[0] == 'd' && "delete"@[1] == 'e' && "delete"@[2] == 'l');
}

/// A run of letters, whole, that names a character is that character behind
/// `#\`. Any other byte there is the character with its number, whatever
/// follows, and so is the first letter of a run that names none.
pub proof fn law_characters(letters: Seq<u8>, rest: Seq<u8>, character: char)
    requires
        forall|k: int| 0 <= k < letters.len() ==> is_roman(#[trigger] letters[k]),
        rest.len() > 0 ==> !is_roman(rest[0]),
    ensures
        names_character(text::byte_text(letters), character) ==> lexical::lexeme_at(
            seq![HASH, BACKSLASH] + letters + rest,
            0,
        ) == Lexeme::Token(TokenView::Character(character), (letters.len() + 2) as int),
        letters.len() > 0 && (forall|c: char| !names_character(text::byte_text(letters), c))
            ==> lexical::lexeme_at(seq![HASH, BACKSLASH] + letters + rest, 0) == Lexeme::Token(
            TokenView::Character(letters[0] as char),
            3,
        ),
        letters.len() == 0 && rest.len() > 0 ==> lexical::lexeme_at(
            seq![HASH, BACKSLASH] + letters + rest,
            0,
        ) == Lexeme::Token(TokenView::Character(rest[0] as char), 3),
        letters.len() == 0 && rest.len() == 0 ==> lexical::lexeme_at(
            seq![HASH, BACKSLASH] + letters + rest,
            0,
        ) == Lexeme::Bad(
            Failure { message: "unexpected end of input in character literal"@, offset: 2 },
        ),
{
    let b = seq![HASH, BACKSLASH] + letters + rest;
    let end = 2 + letters.len() as int;
    assert forall|k: int| 2 <= k < end implies lexical::in_class(
        ByteClass::Letter,
        #[trigger] b[k],
    ) by {
        assert(b[k] == letters[k - 2]);
    }
    if rest.len() > 0 {
        assert(b[end] == rest[0]);
    }
    laws::lemma_run_of(b, 2, end, ByteClass::Letter);
    assert(b.subrange(2, end) =~= letters);
    lemma_names(text::byte_text(letters));
    assert(text::byte_text(letters).len() == letters.len());
    if letters.len() > 0 {
        assert(b[2] == letters[0]);
    }
}

// ---- Points ----

/// A point before a terminator or the end is a dot.
pub proof fn law_dot(rest: Seq<u8>)
    requires
        rest.len() > 0 ==> ends_symbol(rest[0]),
    ensures
        lexical::lexeme_at(seq![POINT] + rest, 0) == Lexeme::Token(TokenView::Dot, 1),
{
    let b = seq![POINT] + rest;
    assert(lexical::byte_at(b, 1) == lexical::byte_at(rest, 0));
}

// ---- Words behind `#` ----

/// The four words for truth values, before a terminator or the end.
pub proof fn law_booleans(rest: Seq<u8>)
    requires
        rest.len() > 0 ==> ends_symbol(rest[0]),
    ensures
        lexical::lexeme_at(spelling::ascii_bytes("#t"@) + rest, 0) == Lexeme::Token(
            TokenView::Boolean(true),
            2,
        ),
        lexical::lexeme_at(spelling::ascii_bytes("#f"@) + rest, 0) == Lexeme::Token(
            TokenView::Boolean(false),
            2,
        ),
        lexical::lexeme_at(spelling::ascii_bytes("#true"@) + rest, 0) == Lexeme::Token(
            TokenView::Boolean(true),
            5,
        ),
        lexical::lexeme_at(spelling::ascii_bytes("#false"@) + rest, 0) == Lexeme::Token(
            TokenView::Boolean(false),
            6,
        ),
{
    reveal_strlit("#t");
    reveal_strlit("#f");
    reveal_strlit("#true");
    reveal_strlit("#false");
    lemma_boolean("#t"@, "t"@, rest, true);
    lemma_boolean("#f"@, "f"@, rest, false);
    lemma_boolean("#true"@, "true"@, rest, true);
    lemma_boolean("#false"@, "false"@, rest, false);
}

proof fn lemma_boolean(word: Seq<char>, name: Seq<char>, rest: Seq<u8>, value: bool)
    requires
        surroundings::separate(rest),
        word == "#t"@ && name == "t"@ && value || word == "#true"@ && name == "true"@ && value
            || word == "#f"@ && name == "f"@ && !value || word == "#false"@ && name == "false"@
            && !value,
    ensures
        lexical::lexeme_at(spelling::ascii_bytes(word) + rest, 0) == Lexeme::Token(
            TokenView::Boolean(value),
            word.len() as int,
        ),
{
    reveal_strlit("t");
    reveal_strlit("f");
    reveal_strlit("true");
    reveal_strlit("false");
    reveal_strlit("#t");
    reveal_strlit("#f");
    reveal_strlit("#true");
    reveal_strlit("#false");
    reveal_strlit("#vu8(");
    let n = word.len() as int;
    let b = spelling::ascii_bytes(word) + rest;
    assert(b[0] == HASH);
    assert(b[1] == word[1] as u8);
    assert(text::byte_text(b.subrange(1, n)) =~= name);
    assert(lexical::word_at(b, 1, name));
    assert(lexical::byte_at(b, n) == lexical::byte_at(rest, 0));
    assert(lexical::symbol_terminator(lexical::byte_at(b, n)));
    assert(!lexical::bytevector_prefix_at(b, 0)) by {
        if lexical::bytevector_prefix_at(b, 0) {
            let low = lexical::lower_all(b.subrange(0, 5));
            assert(text::byte_text(low)[1] == "#vu8("@[1]);
            assert(low[1] == b[1]);
        }
    }
    if n == 2 {
        assert(!lexical::word_at(b, 1, "true"@)) by {
            if lexical::word_at(b, 1, "true"@) {
                assert(text::byte_text(b.subrange(1, 5))[1] == "true"@[1]);
                assert(b[2] == 0x72);
            }
        }
        assert(!lexical::word_at(b, 1, "false"@)) by {
            if lexical::word_at(b, 1, "false"@) {
                assert(text::byte_text(b.subrange(1, 6))[1] == "false"@[1]);
                assert(b[2] == 0x61);
            }
        }
        if name == "f"@ {
            assert(text::byte_text(b.subrange(1, 2))[0] == 'f');
        }
    } else if name == "false"@ {
        assert(!lexical::word_at(b, 1, "true"@)) by {
            if lexical::word_at(b, 1, "true"@) {
                assert(text::byte_text(b.subrange(1, 5))[0] == "true"@[0]);
                assert(b[1] == 0x74);
            }
        }
    }
}

// ---- Symbols ----

/// Whether a byte ends a symbol.
pub open spec fn ends_symbol(c: u8) -> bool {
    ||| c == SPACE || c == TAB || c == RETURN || c == NEWLINE
    ||| c == OPEN_PAREN || c == CLOSE_PAREN || c == DOUBLE_QUOTE || c == SEMICOLON
    ||| c == APOSTROPHE || c == BACKQUOTE || c == COMMA
}

/// Whether `s` is a part of a symbol: a byte that ends none, or an escape, `\x`
/// and anything up to `;`.
pub open spec fn is_symbol_part(s: Seq<u8>) -> bool {
    ||| s.len() == 1 && !ends_symbol(s[0])
    ||| s.len() > 2 && s[0] == BACKSLASH && s[1] == LOWER_X && s.last() == SEMICOLON && (forall|
        k: int,
    |
        2 <= k < s.len() - 1 ==> #[trigger] s[k] != SEMICOLON)
}

/// Whether all are parts of a symbol, and no backslash by itself stands before
/// an `x`.
pub open spec fn all_symbol_parts(parts: Seq<Seq<u8>>) -> bool {
    &&& forall|k: int| 0 <= k < parts.len() ==> is_symbol_part(#[trigger] parts[k])
    &&& forall|k: int|
        0 <= k < parts.len() - 1 && #[trigger] parts[k] == seq![BACKSLASH] ==> parts[k + 1][0]
            != LOWER_X
}

/// Parts one behind the other.
pub open spec fn joined(parts: Seq<Seq<u8>>) -> Seq<u8>
    decreases parts.len(),
{
    if parts.len() == 0 {
        Seq::empty()
    } else {
        parts[0] + joined(parts.drop_first())
    }
}

proof fn lemma_symbol_parts(b: Seq<u8>, i: int, parts: Seq<Seq<u8>>)
    requires
        all_symbol_parts(parts),
        0 <= i,
        i + joined(parts).len() <= b.len(),
        b.subrange(i, i + joined(parts).len()) == joined(parts),
        lexical::byte_at(b, i + joined(parts).len()) != Some(LOWER_X),
    ensures
        lexical::symbol_end(b, i) == lexical::symbol_end(b, i + joined(parts).len()),
    decreases parts.len(),
{
    if parts.len() > 0 {
        let s = parts[0];
        let others = parts.drop_first();
        let whole = joined(parts);
        let m = s.len() as int;
        assert(whole == s + joined(others));
        assert(b.subrange(i, i + m) =~= whole.subrange(0, m));
        assert(whole.subrange(0, m) =~= s);
        assert(b.subrange(i + m, i + m + joined(others).len()) =~= whole.subrange(
            m,
            whole.len() as int,
        ));
        assert(whole.subrange(m, whole.len() as int) =~= joined(others));
        lemma_other_parts(parts);
        lemma_symbol_parts(b, i + m, others);
        assert(s[0] == b.subrange(i, i + m)[0]);
        assert(b[i] == s[0]);
        if m == 1 {
            if s[0] == BACKSLASH {
                assert(s =~= seq![BACKSLASH]);
                if others.len() > 0 {
                    assert(joined(others) == others[0] + joined(others.drop_first()));
                    assert(b[i + 1] == b.subrange(i + 1, i + 1 + joined(others).len())[0]);
                    assert(b[i + 1] == parts[1][0]);
                }
            }
        } else {
            assert(s[1] == b.subrange(i, i + m)[1]);
            assert(b[i + 1] == s[1]);
            assert(s[m - 1] == b.subrange(i, i + m)[m - 1]);
            assert(b[i + m - 1] == SEMICOLON);
            assert forall|k: int| i + 2 <= k < i + m - 1 implies lexical::in_class(
                ByteClass::NotSemicolon,
                #[trigger] b[k],
            ) by {
                assert(s[k - i] == b.subrange(i, i + m)[k - i]);
            }
            laws::lemma_run_of(b, i + 2, i + m - 1, ByteClass::NotSemicolon);
        }
    }
}

/// All parts but the first are such too.
proof fn lemma_other_parts(parts: Seq<Seq<u8>>)
    requires
        all_symbol_parts(parts),
        parts.len() > 0,
    ensures
        all_symbol_parts(parts.drop_first()),
        is_symbol_part(parts[0]),
        parts.len() > 1 ==> is_symbol_part(parts[1]),
        parts.len() > 1 ==> parts.drop_first()[0] == parts[1],
{
    let others = parts.drop_first();
    assert forall|k: int| 0 <= k < others.len() implies is_symbol_part(#[trigger] others[k]) by {
        assert(others[k] == parts[k + 1]);
    }
    assert forall|k: int|
        0 <= k < others.len() - 1 && #[trigger] others[k] == seq![BACKSLASH] implies others[k
        + 1][0] != LOWER_X by {
        assert(others[k] == parts[k + 1]);
        assert(others[k + 1] == parts[k + 2]);
    }
}

/// Whether a symbol may begin with `c`: nothing else does.
pub open spec fn begins_symbol(c: u8) -> bool {
    &&& !ends_symbol(c)
    &&& !(0x30 <= c <= 0x39)
    &&& c != PLUS && c != MINUS && c != POINT && c != HASH
}

/// Parts of a symbol up to a terminator or the end are the symbol with that
/// text, where nothing else begins with their first byte, or where they begin
/// with a sign or a point but not like a number, and are no single point.
pub proof fn law_symbols(parts: Seq<Seq<u8>>, rest: Seq<u8>)
    requires
        all_symbol_parts(parts),
        joined(parts).len() > 0,
        begins_symbol(joined(parts)[0]) || (joined(parts)[0] == PLUS || joined(parts)[0] == MINUS
            || joined(parts)[0] == POINT) && !numerals::begins_like_number(joined(parts))
            && joined(parts) != seq![POINT],
        rest.len() > 0 ==> ends_symbol(rest[0]),
    ensures
        lexical::lexeme_at(joined(parts) + rest, 0) == Lexeme::Token(
            TokenView::Symbol(text::text_of(joined(parts))),
            joined(parts).len() as int,
        ),
{
    let s = joined(parts);
    let b = s + rest;
    assert(b.subrange(0, s.len() as int) =~= s);
    assert(lexical::byte_at(b, s.len() as int) == lexical::byte_at(rest, 0));
    lemma_symbol_parts(b, 0, parts);
    assert(b[0] == s[0]);
    if !begins_symbol(s[0]) {
        if s.len() == 1 {
            assert(s[0] == POINT ==> s =~= seq![POINT]);
            assert(rest.len() > 0 ==> b[1] == rest[0]);
        } else {
            assert(b[1] == s[1]);
            lemma_plain_prefix(parts, 1);
        }
        assert(s.len() > 2 ==> b[2] == s[2]);
        assert(s.len() == 2 && rest.len() > 0 ==> b[2] == rest[0]);
        numerals::lemma_no_digits(b);
    }
}

/// Behind bytes of a symbol of which none is a backslash stands no byte that
/// ends one.
proof fn lemma_plain_prefix(parts: Seq<Seq<u8>>, n: int)
    requires
        all_symbol_parts(parts),
        0 <= n < joined(parts).len(),
        forall|k: int| 0 <= k < n ==> #[trigger] joined(parts)[k] != BACKSLASH,
    ensures
        !ends_symbol(joined(parts)[n]),
    decreases parts.len(),
{
    let others = parts.drop_first();
    assert(joined(parts) == parts[0] + joined(others));
    lemma_other_parts(parts);
    assert(joined(parts)[0] == parts[0][0]);
    if n > 0 {
        assert(parts[0].len() == 1);
        assert forall|k: int| 0 <= k < n - 1 implies #[trigger] joined(others)[k] != BACKSLASH by {
            assert(joined(parts)[k + 1] == joined(others)[k]);
        }
        lemma_plain_prefix(others, n - 1);
        assert(joined(parts)[n] == joined(others)[n - 1]);
    }
}

/// An escape in a symbol that the source ends in is an error at its backslash.
pub proof fn law_symbol_errors(parts: Seq<Seq<u8>>, rest: Seq<u8>)
    requires
        all_symbol_parts(parts),
        parts.len() > 0 ==> begins_symbol(joined(parts)[0]),
        rest.len() >= 2,
        rest[0] == BACKSLASH,
        rest[1] == LOWER_X,
        forall|k: int| 2 <= k < rest.len() ==> #[trigger] rest[k] != SEMICOLON,
    ensures
        lexical::lexeme_at(joined(parts) + rest, 0) == Lexeme::Bad(
            Failure {
                message: "unterminated inline hex escape"@,
                offset: joined(parts).len() as int,
            },
        ),
{
    let s = joined(parts);
    let b = s + rest;
    let n = s.len() as int;
    assert(b.subrange(0, n) =~= s);
    assert(b[n] == BACKSLASH && b[n + 1] == LOWER_X);
    lemma_symbol_parts(b, 0, parts);
    assert forall|k: int| n + 2 <= k < b.len() implies lexical::in_class(
        ByteClass::NotSemicolon,
        #[trigger] b[k],
    ) by {
        assert(b[k] == rest[k - n]);
    }
    laws::lemma_run_of(b, n + 2, b.len() as int, ByteClass::NotSemicolon);
    assert(lexical::symbol_end(b, n) is Err);
    if parts.len() > 0 {
        assert(s == parts[0] + joined(parts.drop_first()));
        assert(s.len() > 0);
        assert(b[0] == s[0]);
    }
}

/// Parts of a symbol that begin with a decimal literal and go on with `#`, or
/// with an exponent mark that lacks its digits, up to a terminator or the end,
/// are the symbol with that text.
pub proof fn law_broken_numbers(
    parts: Seq<Seq<u8>>,
    d: numerals::Decimal,
    tail: Seq<u8>,
    rest: Seq<u8>,
)
    requires
        all_symbol_parts(parts),
        numerals::is_decimal(d),
        numerals::breaks(d, tail),
        joined(parts) == numerals::decimal_text(d) + tail,
        rest.len() > 0 ==> ends_symbol(rest[0]),
    ensures
        lexical::lexeme_at(joined(parts) + rest, 0) == Lexeme::Token(
            TokenView::Symbol(text::text_of(joined(parts))),
            joined(parts).len() as int,
        ),
{
    let s = joined(parts);
    let b = s + rest;
    let n = s.len() as int;
    let more = tail + rest;
    assert(b.subrange(0, n) =~= s);
    assert(lexical::byte_at(b, n) == lexical::byte_at(rest, 0));
    lemma_symbol_parts(b, 0, parts);
    assert(b =~= numerals::decimal_text(d) + more);
    assert(numerals::breaks(d, more)) by {
        assert(more[0] == tail[0]);
        assert(tail.len() > 1 ==> more[1] == tail[1]);
        assert(tail.len() > 2 ==> more[2] == tail[2]);
        assert(tail.len() == 1 && rest.len() > 0 ==> more[1] == rest[0]);
        assert(tail.len() == 2 && rest.len() > 0 ==> more[2] == rest[0]);
    }
    numerals::lemma_broken(d, more);
    numerals::lemma_first_byte(d, more);
}

/// Parts of a symbol that begin with `#`, up to a terminator or the end, are the
/// symbol with that text, where they are none of the words for truth values and
/// nothing else begins with `#` and the byte behind it.
pub proof fn law_hash_symbols(parts: Seq<Seq<u8>>, rest: Seq<u8>)
    requires
        all_symbol_parts(parts),
        joined(parts).len() > 0,
        joined(parts)[0] == HASH,
        joined(parts).len() > 1 ==> joined(parts)[1] != BAR && joined(parts)[1] != BACKSLASH,
        joined(parts) != spelling::ascii_bytes("#t"@),
        joined(parts) != spelling::ascii_bytes("#f"@),
        joined(parts) != spelling::ascii_bytes("#true"@),
        joined(parts) != spelling::ascii_bytes("#false"@),
        rest.len() > 0 ==> ends_symbol(rest[0]),
        rest.len() > 0 && joined(parts).len() == 1 ==> rest[0] != OPEN_PAREN && rest[0]
            != SEMICOLON,
        rest.len() > 0 && joined(parts).len() == 4 ==> rest[0] != OPEN_PAREN,
    ensures
        lexical::lexeme_at(joined(parts) + rest, 0) == Lexeme::Token(
            TokenView::Symbol(text::text_of(joined(parts))),
            joined(parts).len() as int,
        ),
{
    reveal_strlit("#vu8(");
    let s = joined(parts);
    let b = s + rest;
    let n = s.len() as int;
    assert(b.subrange(0, n) =~= s);
    assert(lexical::byte_at(b, n) == lexical::byte_at(rest, 0));
    lemma_symbol_parts(b, 0, parts);
    assert(b[0] == HASH);
    if n > 1 {
        assert(b[1] == s[1]);
        lemma_plain_prefix(parts, 1);
    }
    assert(!lexical::bytevector_prefix_at(b, 0)) by {
        if lexical::bytevector_prefix_at(b, 0) {
            let low = lexical::lower_all(b.subrange(0, 5));
            assert(text::byte_text(low)[4] == "#vu8("@[4]);
            assert(low[4] == lexical::lower(b[4]));
            assert(b[4] == OPEN_PAREN);
            assert(text::byte_text(low)[1] == "#vu8("@[1]);
            assert(text::byte_text(low)[2] == "#vu8("@[2]);
            assert(text::byte_text(low)[3] == "#vu8("@[3]);
            assert(low[1] == lexical::lower(b[1]));
            assert(low[2] == lexical::lower(b[2]));
            assert(low[3] == lexical::lower(b[3]));
            if n > 4 {
                assert forall|k: int| 0 <= k < 4 implies #[trigger] s[k] != BACKSLASH by {
                    assert(s[k] == b[k]);
                }
                lemma_plain_prefix(parts, 4);
                assert(s[4] == b[4]);
            } else if rest.len() > 0 {
                assert(b[n] == rest[0]);
            }
        }
    }
    lemma_not_boolean(parts, rest, "#t"@, "t"@);
    lemma_not_boolean(parts, rest, "#f"@, "f"@);
    lemma_not_boolean(parts, rest, "#true"@, "true"@);
    lemma_not_boolean(parts, rest, "#false"@, "false"@);
    reveal_strlit("t");
    reveal_strlit("f");
    reveal_strlit("true");
    reveal_strlit("false");
}

proof fn lemma_not_boolean(
    parts: Seq<Seq<u8>>,
    rest: Seq<u8>,
    word: Seq<char>,
    name: Seq<char>,
)
    requires
        all_symbol_parts(parts),
        joined(parts).len() > 0,
        joined(parts)[0] == HASH,
        joined(parts) != spelling::ascii_bytes(word),
        rest.len() > 0 ==> ends_symbol(rest[0]),
        word == "#t"@ && name == "t"@ || word == "#f"@ && name == "f"@ || word == "#true"@ && name
            == "true"@ || word == "#false"@ && name == "false"@,
    ensures
        !(lexical::word_at(joined(parts) + rest, 1, name) && lexical::symbol_terminator(
            lexical::byte_at(joined(parts) + rest, (name.len() + 1) as int),
        )),
{
    reveal_strlit("t");
    reveal_strlit("f");
    reveal_strlit("true");
    reveal_strlit("false");
    reveal_strlit("#t");
    reveal_strlit("#f");
    reveal_strlit("#true");
    reveal_strlit("#false");
    let s = joined(parts);
    let b = s + rest;
    let n = s.len() as int;
    let m = (name.len() + 1) as int;
    if lexical::word_at(b, 1, name) && lexical::symbol_terminator(lexical::byte_at(b, m)) {
        let part = b.subrange(1, m);
        assert forall|k: int| 1 <= k < m implies (#[trigger] b[k]) as char == word[k] by {
            assert(text::byte_text(part)[k - 1] == name[k - 1]);
            assert(part[k - 1] == b[k]);
            assert(name[k - 1] == word[k]);
        }
        if n > m {
            assert forall|k: int| 0 <= k < m implies #[trigger] s[k] != BACKSLASH by {
                assert(s[k] == b[k]);
            }
            lemma_plain_prefix(parts, m);
            assert(b[m] == s[m]);
        } else if n < m {
            assert(b[n] == rest[0]);
            assert(b[n] as char == word[n]);
        } else {
            assert forall|k: int| 0 <= k < n implies #[trigger] s[k] == spelling::ascii_bytes(
                word,
            )[k] by {
                assert(s[k] == b[k]);
            }
            assert(s =~= spelling::ascii_bytes(word));
        }
    }
}

// ---- Block comments ----

/// Whether the parts leave a comment `depth` levels deep open, at their end and
/// before.
pub open spec fn stays_open(parts: Seq<CommentPart>, depth: nat) -> bool
    decreases parts.len(),
{
    &&& depth > 0
    &&& parts.len() > 0 ==> stays_open(
        parts.drop_first(),
        match parts[0] {
            CommentPart::Open => depth + 1,
            CommentPart::Close => (depth - 1) as nat,
            CommentPart::Byte(_) => depth,
        },
    )
}

proof fn lemma_open_comment(b: Seq<u8>, i: int, parts: Seq<CommentPart>, depth: nat)
    requires
        0 <= i <= b.len(),
        b.subrange(i, b.len() as int) == comment_text(parts),
        bytes_apart(parts),
        stays_open(parts, depth),
    ensures
        lexical::block_comment_end(b, i, depth) is None,
    decreases parts.len(),
{
    let tail = b.subrange(i, b.len() as int);
    assert(tail.len() == b.len() - i);
    if parts.len() > 0 {
        let first = comment_bytes(parts[0]);
        let others = parts.drop_first();
        assert(comment_text(parts) == first + comment_text(others));
        let m = first.len() as int;
        assert(b.subrange(i + m, b.len() as int) =~= tail.subrange(m, tail.len() as int));
        assert(tail.subrange(m, tail.len() as int) =~= comment_text(others));
        lemma_others_apart(parts);
        assert(b[i] == tail[0]);
        match parts[0] {
            CommentPart::Open => {
                assert(b[i + 1] == tail[1]);
                lemma_open_comment(b, i + 2, others, depth + 1);
            },
            CommentPart::Close => {
                assert(b[i + 1] == tail[1]);
                assert(stays_open(others, (depth - 1) as nat));
                lemma_open_comment(b, i + 2, others, (depth - 1) as nat);
            },
            CommentPart::Byte(c) => {
                lemma_open_comment(b, i + 1, others, depth);
                if others.len() > 0 {
                    assert(parts[0] is Byte);
                    assert(others[0] == parts[1]);
                    assert(comment_text(others) == comment_bytes(others[0]) + comment_text(
                        others.drop_first(),
                    ));
                    assert(b[i + 1] == tail[1]);
                    assert(tail[1] == comment_bytes(parts[1])[0]);
                } else {
                    assert(comment_text(others).len() == 0);
                    assert(tail.len() == 1);
                }
            },
        }
    }
}

/// A block comment that the source ends in is an error at its beginning.
pub proof fn law_block_comment_errors(parts: Seq<CommentPart>)
    requires
        bytes_apart(parts),
        stays_open(parts, 1),
    ensures
        lexical::lexeme_at(seq![HASH, BAR] + comment_text(parts), 0) == Lexeme::Bad(
            Failure { message: "unterminated block comment"@, offset: 0 },
        ),
{
    let b = seq![HASH, BAR] + comment_text(parts);
    assert(b.subrange(2, b.len() as int) =~= comment_text(parts));
    lemma_open_comment(b, 2, parts, 1);
}

/// All parts but the first keep apart too.
proof fn lemma_others_apart(parts: Seq<CommentPart>)
    requires
        bytes_apart(parts),
        parts.len() > 0,
    ensures
        bytes_apart(parts.drop_first()),
{
    let others = parts.drop_first();
    assert forall|k: int|
        0 <= k < others.len() - 1 && (#[trigger] others[k]) is Byte implies ({
        let next = comment_bytes(others[k + 1])[0];
        &&& others[k]->Byte_0 == HASH ==> next != BAR
        &&& others[k]->Byte_0 == BAR ==> next != HASH
    }) by {
        assert(others[k] == parts[k + 1]);
        assert(others[k + 1] == parts[k + 2]);
    }
}

/// A part of the inside of a block comment.
pub enum CommentPart {
    /// `#|`
    Open,
    /// `|#`
    Close,
    /// Any byte that makes no such mark with the next one.
    Byte(u8),
}

pub open spec fn comment_bytes(part: CommentPart) -> Seq<u8> {
    match part {
        CommentPart::Open => seq![HASH, BAR],
        CommentPart::Close => seq![BAR, HASH],
        CommentPart::Byte(c) => seq![c],
    }
}

/// Parts one behind the other.
pub open spec fn comment_text(parts: Seq<CommentPart>) -> Seq<u8>
    decreases parts.len(),
{
    if parts.len() == 0 {
        Seq::empty()
    } else {
        comment_bytes(parts[0]) + comment_text(parts.drop_first())
    }
}

/// Whether no byte makes a mark with the one behind it.
pub open spec fn bytes_apart(parts: Seq<CommentPart>) -> bool {
    forall|k: int|
        0 <= k < parts.len() - 1 && (#[trigger] parts[k]) is Byte ==> {
            let next = comment_bytes(parts[k + 1])[0];
            &&& parts[k]->Byte_0 == HASH ==> next != BAR
            &&& parts[k]->Byte_0 == BAR ==> next != HASH
        }
}

/// Whether the parts close a comment `depth` levels deep with the last of them,
/// and not before.
pub open spec fn closes(parts: Seq<CommentPart>, depth: nat) -> bool
    decreases parts.len(),
{
    if parts.len() == 0 {
        depth == 0
    } else {
        depth > 0 && closes(
            parts.drop_first(),
            match parts[0] {
                CommentPart::Open => depth + 1,
                CommentPart::Close => (depth - 1) as nat,
                CommentPart::Byte(_) => depth,
            },
        )
    }
}

proof fn lemma_comment_parts(
    b: Seq<u8>,
    i: int,
    parts: Seq<CommentPart>,
    depth: nat,
    rest: Seq<u8>,
)
    requires
        0 <= i <= b.len(),
        b.subrange(i, b.len() as int) == comment_text(parts) + rest,
        bytes_apart(parts),
        closes(parts, depth),
    ensures
        lexical::block_comment_end(b, i, depth) == Some(i + comment_text(parts).len()),
    decreases parts.len(),
{
    if parts.len() > 0 {
        let first = comment_bytes(parts[0]);
        let others = parts.drop_first();
        let tail = b.subrange(i, b.len() as int);
        assert(comment_text(parts) == first + comment_text(others));
        assert(tail =~= first + (comment_text(others) + rest));
        let m = first.len() as int;
        assert(b.subrange(i + m, b.len() as int) =~= tail.subrange(m, tail.len() as int));
        assert(tail.subrange(m, tail.len() as int) =~= comment_text(others) + rest);
        lemma_others_apart(parts);
        assert(b[i] == tail[0]);
        match parts[0] {
            CommentPart::Open => {
                assert(b[i + 1] == tail[1]);
                lemma_comment_parts(b, i + 2, others, depth + 1, rest);
            },
            CommentPart::Close => {
                assert(b[i + 1] == tail[1]);
                lemma_comment_parts(b, i + 2, others, (depth - 1) as nat, rest);
            },
            CommentPart::Byte(c) => {
                lemma_comment_parts(b, i + 1, others, depth, rest);
                assert(closes(others, depth));
                assert(others.len() > 0);
                assert(parts[0] is Byte);
                assert(others[0] == parts[1]);
                assert(comment_text(others) == comment_bytes(others[0]) + comment_text(
                    others.drop_first(),
                ));
                assert(b[i + 1] == tail[1]);
                assert(tail[1] == comment_bytes(parts[1])[0]);
            },
        }
    }
}

/// A block comment ends with the mark that closes its first level, whatever it
/// holds and whatever follows.
pub proof fn law_block_comments(parts: Seq<CommentPart>, rest: Seq<u8>)
    requires
        bytes_apart(parts),
        closes(parts, 1),
    ensures
        lexical::lexeme_at(seq![HASH, BAR] + comment_text(parts) + rest, 0) == Lexeme::Blank(
            (comment_text(parts).len() + 2) as int,
        ),
{
    let b = seq![HASH, BAR] + comment_text(parts) + rest;
    assert(b.subrange(2, b.len() as int) =~= comment_text(parts) + rest);
    lemma_comment_parts(b, 2, parts, 1, rest);
}

/// A line comment ends before the next newline, or with the source.
pub proof fn law_line_comments(comment: Seq<u8>, rest: Seq<u8>)
    requires
        forall|k: int| 0 <= k < comment.len() ==> #[trigger] comment[k] != NEWLINE,
        rest.len() > 0 ==> rest[0] == NEWLINE,
    ensures
        lexical::lexeme_at(seq![SEMICOLON] + comment + rest, 0) == Lexeme::Blank(
            (comment.len() + 1) as int,
        ),
{
    let b = seq![SEMICOLON] + comment + rest;
    let n = (comment.len() + 1) as int;
    assert forall|k: int| 0 <= k < n implies lexical::in_class(
        ByteClass::NotNewline,
        #[trigger] b[k],
    ) by {
        if k > 0 {
            assert(b[k] == comment[k - 1]);
        }
    }
    assert(rest.len() > 0 ==> b[n] == rest[0]);
    laws::lemma_run_of(b, 0, n, ByteClass::NotNewline);
}

} // verus!
