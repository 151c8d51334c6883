//! Text helpers shared by the lexer and the parser.

use vstd::prelude::*;
use vstd::string::{StringExecFns, StringSliceAdditionalSpecFns};
use vstd::utf8::{
    decode_utf8, encode_utf8, encode_utf8_decode_utf8, encode_utf8_valid_utf8, valid_utf8,
};

verus! {

/// `String::push` appends the given character to the end of the string.
pub assume_specification[ std::string::String::push ](string: &mut std::string::String, ch: char)
    ensures
        final(string)@ == old(string)@.push(ch),
;

/// `char::from_u32` succeeds exactly on the Unicode scalar values, the code
/// points outside the surrogate range, and returns the character with that
/// number.
pub assume_specification[ char::from_u32 ](value: u32) -> (c: Option<char>)
    ensures
        c == (if is_scalar_value(value as int) {
            Some(value as char)
        } else {
            None
        }),
;

/// The numbers of characters: all code points but the surrogates.
pub open spec fn is_scalar_value(value: int) -> bool {
    0 <= value <= 0xD7FF || 0xE000 <= value <= 0x10FFFF
}

/// What `String::from_utf8_lossy` makes of bytes that are not well-formed
/// UTF-8: the text in which replacement characters stand for the ill-formed
/// parts.
pub uninterp spec fn repaired_text(bytes: Seq<u8>) -> Seq<char>;

/// The text that a run of bytes stands for: the text it encodes where it is
/// well-formed UTF-8, and the repaired text otherwise.
pub open spec fn text_of(bytes: Seq<u8>) -> Seq<char> {
    if valid_utf8(bytes) {
        decode_utf8(bytes)
    } else {
        repaired_text(bytes)
    }
}

/// The text that the encoding of a text stands for is that text.
pub proof fn law_encoded_text(name: Seq<char>)
    ensures
        text_of(encode_utf8(name)) == name,
{
    encode_utf8_valid_utf8(name);
    encode_utf8_decode_utf8(name);
}

/// `String::from_utf8_lossy` decodes well-formed UTF-8 exactly; on other bytes
/// its result depends on those bytes alone.
#[verifier::external_body]
pub(crate) fn decode_lossy(bytes: &[u8]) -> (text: String)
    ensures
        valid_utf8(bytes@) ==> text@ == decode_utf8(bytes@),
        !valid_utf8(bytes@) ==> text@ == repaired_text(bytes@),
{
    String::from_utf8_lossy(bytes).into_owned()
}

/// The text with one character per byte, each byte being the number of its
/// character.
pub open spec fn byte_text(bytes: Seq<u8>) -> Seq<char> {
    Seq::new(bytes.len(), |i: int| bytes[i] as char)
}

/// The text of bytes has one character for each, with the number of the byte.
pub proof fn law_byte_text(bytes: Seq<u8>, i: int)
    requires
        0 <= i < bytes.len(),
    ensures
        byte_text(bytes).len() == bytes.len(),
        byte_text(bytes)[i] as int == bytes[i],
{
}

/// Collects `bytes[from..to]` into text, one character per byte.
pub(crate) fn collect_bytes(bytes: &[u8], from: usize, to: usize) -> (text: String)
    requires
        from <= to <= bytes@.len(),
    ensures
        text@ == byte_text(bytes@.subrange(from as int, to as int)),
{
    let mut text = String::new();
    let mut i: usize = from;
    while i < to
        invariant
            from <= i <= to <= bytes@.len(),
            text@ == byte_text(bytes@.subrange(from as int, i as int)),
        decreases to - i,
    {
        text.push(bytes[i] as char);
        i += 1;
        assert(text@ =~= byte_text(bytes@.subrange(from as int, i as int)));
    }
    text
}

/// Whether two texts are the same.
pub(crate) fn same_text(a: &str, b: &str) -> (same: bool)
    ensures
        same == (a@ == b@),
{
    let x = a.as_bytes();
    let y = b.as_bytes();
    proof {
        encode_utf8_decode_utf8(a@);
        encode_utf8_decode_utf8(b@);
    }
    if x.len() != y.len() {
        return false;
    }
    let mut i: usize = 0;
    while i < x.len()
        invariant
            i <= x@.len(),
            x@.len() == y@.len(),
            x@ == encode_utf8(a@),
            y@ == encode_utf8(b@),
            forall|k: int| 0 <= k < i ==> x@[k] == y@[k],
        decreases x@.len() - i,
    {
        if x[i] != y[i] {
            return false;
        }
        i += 1;
    }
    assert(x@ =~= y@);
    true
}

/// The decimal digits of a number, most significant first.
pub open spec fn decimal(n: nat) -> Seq<char>
    decreases n,
{
    if n < 10 {
        seq![digit_char(n)]
    } else {
        decimal(n / 10).push(digit_char(n % 10))
    }
}

/// The character of a decimal digit.
pub open spec fn digit_char(d: nat) -> char {
    (48 + d) as char
}

/// Appends the decimal digits of `n`.
pub(crate) fn push_decimal(text: &mut String, n: u32)
    ensures
        final(text)@ == old(text)@ + decimal(n as nat),
    decreases n,
{
    let digit: u8 = (n % 10) as u8;
    if n >= 10 {
        push_decimal(text, n / 10);
    }
    text.push((48 + digit) as char);
    assert(text@ =~= old(text)@ + decimal(n as nat));
}

/// The place and the message of an error, as its text gives them.
pub open spec fn located(line: u32, column: u32, message: Seq<char>) -> Seq<char> {
    " at line "@ + decimal(line as nat) + ", column "@ + decimal(column as nat) + ": "@ + message
}

/// Appends the place and the message of an error.
pub(crate) fn push_located(text: &mut String, line: u32, column: u32, message: &String)
    ensures
        final(text)@ == old(text)@ + located(line, column, message@),
{
    text.append(" at line ");
    push_decimal(text, line);
    text.append(", column ");
    push_decimal(text, column);
    text.append(": ");
    text.append(message.as_str());
    assert(text@ =~= old(text)@ + located(line, column, message@));
}

/// Whether `s` writes the number `n` in decimal: its last digit is what is left
/// of `n` divided by ten, and what stands before it, if anything does, writes
/// the quotient.
pub open spec fn writes_decimal(s: Seq<char>, n: nat) -> bool
    decreases s.len(),
{
    &&& s.len() > 0
    &&& s.last() as int == '0' as int + n % 10
    &&& if s.len() == 1 {
        n < 10
    } else {
        n >= 10 && writes_decimal(s.drop_last(), n / 10)
    }
}

proof fn lemma_decimal(n: nat)
    ensures
        writes_decimal(decimal(n), n),
    decreases n,
{
    if n >= 10 {
        lemma_decimal(n / 10);
        assert(decimal(n).drop_last() =~= decimal(n / 10));
    }
}

/// The text of an error gives the line, the column and the message, with the
/// numbers in decimal.
pub proof fn law_error_texts(line: u32, column: u32, message: Seq<char>)
    ensures
        exists|l: Seq<char>, c: Seq<char>|
            writes_decimal(l, line as nat) && writes_decimal(c, column as nat) && located(
                line,
                column,
                message,
            ) == #[trigger] (" at line "@ + l) + #[trigger] (", column "@ + c) + ": "@ + message,
{
    lemma_decimal(line as nat);
    lemma_decimal(column as nat);
    let l = decimal(line as nat);
    let c = decimal(column as nat);
    assert(located(line, column, message) =~= (" at line "@ + l) + (", column "@ + c) + ": "@
        + message);
}

} // verus!
