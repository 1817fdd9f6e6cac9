//! The text that error messages are made of: numbers, escaped bytes and
//! strings.

use vstd::prelude::*;
use vstd::utf8;

verus! {

/// The one-character text of a decimal digit.
pub open spec fn digit(d: nat) -> Seq<char> {
    match d as u8 {
        0 => "0"@,
        1 => "1"@,
        2 => "2"@,
        3 => "3"@,
        4 => "4"@,
        5 => "5"@,
        6 => "6"@,
        7 => "7"@,
        8 => "8"@,
        _ => "9"@,
    }
}

/// A natural number in decimal, without leading zeros.
pub open spec fn decimal(n: nat) -> Seq<char>
    decreases n,
{
    if n < 10 {
        digit(n)
    } else {
        decimal(n / 10) + digit(n % 10)
    }
}

/// An integer in decimal, with a minus sign where it is negative.
pub open spec fn signed_decimal(n: int) -> Seq<char> {
    if n < 0 {
        "-"@ + decimal((-n) as nat)
    } else {
        decimal(n as nat)
    }
}

/// Characters that each stand for one ASCII byte.
pub open spec fn ascii_text(bytes: Seq<u8>) -> Seq<char> {
    Seq::new(bytes.len(), |i: int| bytes[i] as char)
}

/// The ASCII code of a lower case hexadecimal digit.
pub open spec fn hex_digit(d: int) -> u8 {
    if d < 10 {
        (0x30 + d) as u8
    } else {
        (0x57 + d) as u8
    }
}

/// How a byte is shown: printable ASCII as itself, with a backslash before a
/// quote or a backslash; tab, carriage return and line feed by their letters;
/// any other byte by its two hexadecimal digits.
pub open spec fn escaped_byte(b: u8) -> Seq<u8> {
    if b == 0x09 {
        seq![0x5cu8, 0x74u8]
    } else if b == 0x0d {
        seq![0x5cu8, 0x72u8]
    } else if b == 0x0a {
        seq![0x5cu8, 0x6eu8]
    } else if b == 0x22 || b == 0x27 || b == 0x5c {
        seq![0x5cu8, b]
    } else if 0x20 <= b <= 0x7e {
        seq![b]
    } else {
        seq![0x5cu8, 0x78u8, hex_digit(b as int / 16), hex_digit(b as int % 16)]
    }
}

/// The bytes of `bytes`, each one shown as `escaped_byte` says.
pub open spec fn escaped(bytes: Seq<u8>) -> Seq<u8>
    decreases bytes.len(),
{
    if bytes.len() == 0 {
        Seq::empty()
    } else {
        escaped(bytes.drop_last()) + escaped_byte(bytes.last())
    }
}

/// A byte as messages show it.
pub open spec fn byte_text(b: u8) -> Seq<char> {
    ascii_text(escaped_byte(b))
}

/// A byte string as messages show it.
pub open spec fn bytes_text(bytes: Seq<u8>) -> Seq<char> {
    ascii_text(escaped(bytes))
}

/// What `{:?}` writes for a string with these characters.
pub uninterp spec fn debug_text(s: Seq<char>) -> Seq<char>;

/// Calls `format!` with `{:?}`, the `Debug` output of `str`: the string in
/// double quotes, with escapes inside. The contract names that output as a
/// function of the string's characters and says no more of it.
#[verifier::external_body]
pub(crate) fn debug_string(s: &str) -> (out: String)
    ensures
        out@ == debug_text(s@),
{
    format!("{:?}", s)
}

/// Calls `String::from_utf8`, and forgets what its error says. The contract
/// claims that the call succeeds exactly on valid UTF-8, and that the string
/// then holds the characters that the bytes encode.
#[verifier::external_body]
pub(crate) fn string_from_utf8(bytes: Vec<u8>) -> (out: Option<String>)
    ensures
        match out {
            Some(s) => utf8::valid_utf8(bytes@) && s@ == utf8::decode_utf8(bytes@),
            None => !utf8::valid_utf8(bytes@),
        },
{
    String::from_utf8(bytes).ok()
}

/// ASCII bytes are the encoding of the characters that they stand for.
proof fn lemma_ascii_text_encodes(bytes: Seq<u8>)
    requires
        forall|i: int| 0 <= i < bytes.len() ==> bytes[i] < 0x80,
    ensures
        utf8::valid_utf8(bytes),
        utf8::decode_utf8(bytes) == ascii_text(bytes),
{
    let chars = ascii_text(bytes);
    assert(utf8::is_ascii_chars(chars));
    utf8::is_ascii_chars_encode_utf8(chars);
    assert(utf8::encode_utf8(chars) =~= bytes) by {
        assert forall|i: int| 0 <= i < bytes.len() implies utf8::encode_utf8(chars)[i]
            == bytes[i] by {
            assert(chars[i] as u8 == utf8::encode_utf8(chars)[i]);
        }
    }
    utf8::encode_utf8_valid_utf8(chars);
    utf8::encode_utf8_decode_utf8(chars);
}

/// An escaped byte is made of ASCII bytes.
proof fn lemma_escaped_byte_is_ascii(b: u8)
    ensures
        forall|i: int| 0 <= i < escaped_byte(b).len() ==> escaped_byte(b)[i] < 0x80,
{
}

/// The string whose characters stand for these ASCII bytes.
fn ascii_string(bytes: Vec<u8>) -> (out: String)
    requires
        forall|i: int| 0 <= i < bytes@.len() ==> bytes@[i] < 0x80,
    ensures
        out@ == ascii_text(bytes@),
{
    proof {
        lemma_ascii_text_encodes(bytes@);
    }
    match string_from_utf8(bytes) {
        Some(s) => s,
        None => String::new(),
    }
}

/// Appends one escaped byte.
fn push_escaped_byte(out: &mut Vec<u8>, b: u8)
    ensures
        final(out)@ == old(out)@ + escaped_byte(b),
{
    if b == 0x09 {
        out.push(0x5c);
        out.push(0x74);
    } else if b == 0x0d {
        out.push(0x5c);
        out.push(0x72);
    } else if b == 0x0a {
        out.push(0x5c);
        out.push(0x6e);
    } else if b == 0x22 || b == 0x27 || b == 0x5c {
        out.push(0x5c);
        out.push(b);
    } else if 0x20 <= b && b <= 0x7e {
        out.push(b);
    } else {
        let high: u8 = b / 16;
        let low: u8 = b % 16;
        out.push(0x5c);
        out.push(0x78);
        out.push(if high < 10 { 0x30 + high } else { 0x57 + high });
        out.push(if low < 10 { 0x30 + low } else { 0x57 + low });
    }
    assert(out@ =~= old(out)@ + escaped_byte(b));
}

/// A byte as messages show it.
pub(crate) fn byte_string(b: u8) -> (out: String)
    ensures
        out@ == byte_text(b),
{
    let mut bytes: Vec<u8> = Vec::new();
    push_escaped_byte(&mut bytes, b);
    proof {
        lemma_escaped_byte_is_ascii(b);
    }
    assert(bytes@ =~= escaped_byte(b));
    ascii_string(bytes)
}

/// A byte string as messages show it.
pub(crate) fn bytes_string(bytes: &[u8]) -> (out: String)
    ensures
        out@ == bytes_text(bytes@),
{
    let mut shown: Vec<u8> = Vec::new();
    let mut i: usize = 0;
    while i < bytes.len()
        invariant
            i <= bytes@.len(),
            shown@ == escaped(bytes@.take(i as int)),
            forall|j: int| 0 <= j < shown@.len() ==> shown@[j] < 0x80,
        decreases bytes@.len() - i,
    {
        push_escaped_byte(&mut shown, bytes[i]);
        proof {
            lemma_escaped_byte_is_ascii(bytes@[i as int]);
            let next = bytes@.take(i + 1);
            assert(next.drop_last() =~= bytes@.take(i as int));
            assert(next.last() == bytes@[i as int]);
        }
        i = i + 1;
    }
    assert(bytes@.take(i as int) =~= bytes@);
    ascii_string(shown)
}

/// Appends a decimal digit.
fn push_digit(out: &mut String, d: u64)
    requires
        d < 10,
    ensures
        final(out)@ == old(out)@ + digit(d as nat),
{
    let s = match d {
        0 => "0",
        1 => "1",
        2 => "2",
        3 => "3",
        4 => "4",
        5 => "5",
        6 => "6",
        7 => "7",
        8 => "8",
        _ => "9",
    };
    out.append(s);
}

/// Appends a natural number in decimal.
pub(crate) fn push_decimal(out: &mut String, n: u64)
    ensures
        final(out)@ == old(out)@ + decimal(n as nat),
    decreases n,
{
    if n >= 10 {
        push_decimal(out, n / 10);
    }
    push_digit(out, n % 10);
    assert(out@ =~= old(out)@ + decimal(n as nat));
}

/// Appends an integer in decimal.
pub(crate) fn push_signed_decimal(out: &mut String, n: i32)
    ensures
        final(out)@ == old(out)@ + signed_decimal(n as int),
{
    if n < 0 {
        out.append("-");
        push_decimal(out, (-(n as i64)) as u64);
        assert(out@ =~= old(out)@ + signed_decimal(n as int));
    } else {
        push_decimal(out, n as u64);
    }
}

} // verus!
