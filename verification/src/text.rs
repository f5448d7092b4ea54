//! Text made from bytes.
use std::string::FromUtf8Error;
use vstd::prelude::*;
use vstd::utf8::{encode_utf8, is_ascii_chars, is_ascii_chars_encode_utf8, valid_utf8};

verus! {

/// The error of `String::from_utf8`, carried through and never looked into.
#[verifier::external_type_specification]
#[verifier::external_body]
pub struct ExFromUtf8Error(FromUtf8Error);

/// Calls `String::from_utf8`. The contract claims what the standard
/// library documents: the call succeeds exactly on valid UTF-8, and the
/// string it then returns is made of the very bytes it was given.
#[verifier::external_body]
pub(crate) fn string_from_utf8(bytes: Vec<u8>) -> (r: Result<String, FromUtf8Error>)
    ensures
        r is Ok <==> valid_utf8(bytes@),
        r matches Ok(s) ==> encode_utf8(s@) == bytes@,
{
    String::from_utf8(bytes)
}

/// Calls `String::push`, which appends one character at the end.
#[verifier::external_body]
pub(crate) fn push_char(s: &mut String, c: char)
    ensures
        final(s)@ == old(s)@.push(c),
{
    s.push(c)
}

/// The characters whose codes are the bytes of `bytes`: the text that
/// ASCII bytes spell.
pub open spec fn ascii_text(bytes: Seq<u8>) -> Seq<char> {
    bytes.map_values(|b: u8| b as char)
}

/// The text that ASCII bytes spell is encoded by those very bytes.
pub proof fn lemma_ascii_text_bytes(bytes: Seq<u8>)
    requires
        forall|i: int| 0 <= i < bytes.len() ==> bytes[i] < 0x80,
    ensures
        encode_utf8(ascii_text(bytes)) == bytes,
{
    let chars = ascii_text(bytes);
    assert(is_ascii_chars(chars));
    is_ascii_chars_encode_utf8(chars);
    assert(encode_utf8(chars) =~= bytes);
}

/// Whether `c` is white space as Unicode defines it (`White_Space`), which
/// is what `char::is_whitespace` tells.
pub uninterp spec fn is_white_space(c: char) -> bool;

/// Calls `char::is_whitespace`. The contract claims only that the answer
/// depends on the character alone; nothing is proved of which characters
/// are white space.
#[verifier::external_body]
pub(crate) fn char_is_whitespace(c: char) -> (white: bool)
    ensures
        white == is_white_space(c),
{
    c.is_whitespace()
}

/// `text` has nothing but white space in it; the empty text is blank.
pub open spec fn is_blank(text: Seq<char>) -> bool {
    forall|i: int| 0 <= i < text.len() ==> is_white_space(#[trigger] text[i])
}

/// Whether `s` has nothing but white space in it.
pub fn is_blank_text(s: &str) -> (blank: bool)
    ensures
        blank == is_blank(s@),
{
    let mut blank = true;
    for c in it: s.chars()
        invariant
            it.seq() == s@,
            blank == is_blank(s@.subrange(0, it.index())),
    {
        proof {
            lemma_is_blank_push(s@.subrange(0, it.index()), c);
            assert(s@.subrange(0, it.index() + 1) =~= s@.subrange(0, it.index()).push(c));
        }
        blank = blank && char_is_whitespace(c);
    }
    assert(s@.subrange(0, s@.len() as int) =~= s@);
    blank
}

/// A text with one more character is blank when the text is and the
/// character is white space.
pub proof fn lemma_is_blank_push(text: Seq<char>, c: char)
    ensures
        is_blank(text.push(c)) == (is_blank(text) && is_white_space(c)),
{
    let longer = text.push(c);
    if is_blank(longer) {
        assert(longer[text.len() as int] == c);
        assert forall|i: int| 0 <= i < text.len() implies is_white_space(#[trigger] text[i]) by {
            assert(longer[i] == text[i]);
        }
    }
}

/// The character of the digit `d`.
pub open spec fn digit(d: nat) -> char
    recommends
        d < 10,
{
    (0x30 + d) as char
}

/// The digits of `n` in base ten, without leading zeros.
pub open spec fn decimal(n: nat) -> Seq<char>
    decreases n,
{
    if n < 10 {
        seq![digit(n)]
    } else {
        decimal(n / 10).push(digit(n % 10))
    }
}

/// Appends to `s` one character for each byte of `bytes`, the character
/// with that code: for ASCII bytes, the text that they spell.
pub fn push_ascii(s: &mut String, bytes: &[u8])
    ensures
        final(s)@ == old(s)@ + ascii_text(bytes@),
{
    let mut i: usize = 0;
    assert(ascii_text(bytes@.subrange(0, 0)) =~= Seq::<char>::empty());
    assert(s@ =~= s@ + Seq::<char>::empty());
    while i < bytes.len()
        invariant
            i <= bytes@.len(),
            s@ == old(s)@ + ascii_text(bytes@.subrange(0, i as int)),
        decreases bytes@.len() - i,
    {
        let c: char = bytes[i] as char;
        push_char(s, c);
        assert(ascii_text(bytes@.subrange(0, i + 1)) =~= ascii_text(
            bytes@.subrange(0, i as int),
        ).push(c));
        i += 1;
    }
    assert(bytes@.subrange(0, i as int) =~= bytes@);
}

/// Appends to `s` the digits of `n` in base ten.
pub fn push_decimal(s: &mut String, n: u32)
    ensures
        final(s)@ == old(s)@ + decimal(n as nat),
    decreases n,
{
    if n >= 10 {
        push_decimal(s, n / 10);
    }
    let d: u8 = (n % 10) as u8;
    let c: char = (0x30 + d) as char;
    push_char(s, c);
    assert(s@ =~= old(s)@ + decimal(n as nat));
}

} // verus!
