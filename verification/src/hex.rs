//! Hexadecimal text of byte strings.
use crate::error;
use crate::error::Error;
use crate::text;
use vstd::prelude::*;
use vstd::string::*;
use vstd::utf8::*;

verus! {

/// The value of a hexadecimal digit in either case.
pub open spec fn nibble(b: u8) -> Option<u8> {
    if 48 <= b <= 57 {
        Some((b - 48) as u8)
    } else if 97 <= b <= 102 {
        Some((b - 87) as u8)
    } else if 65 <= b <= 70 {
        Some((b - 55) as u8)
    } else {
        None
    }
}

/// Whether every byte is a hexadecimal digit.
pub open spec fn all_digits(t: Seq<u8>) -> bool {
    forall|i: int| 0 <= i < t.len() ==> nibble(#[trigger] t[i]) is Some
}

/// The bytes that a text of hexadecimal digit pairs stands for, or why it stands for none.
pub open spec fn bytes_of(t: Seq<char>) -> Result<Seq<u8>, Seq<char>> {
    let b = encode_utf8(t);
    if b.len() % 2 != 0 {
        Err("hex string has odd length"@)
    } else if !all_digits(b) {
        Err("invalid hex character"@)
    } else {
        Ok(Seq::new(b.len() / 2, |i: int| (16 * nibble(b[2 * i])->0 + nibble(b[2 * i + 1])->0) as u8))
    }
}

/// The refusal of a byte string of the wrong length.
pub open spec fn wrong_length(expected: nat, got: nat) -> Seq<char> {
    "expected "@ + text::decimal(expected) + " hex bytes, got "@ + text::decimal(got)
}

/// The `expected` bytes that the text stands for.
pub open spec fn exact_bytes_of(t: Seq<char>, expected: nat) -> Result<Seq<u8>, Seq<char>> {
    match bytes_of(t) {
        Ok(b) => if b.len() == expected {
            Ok(b)
        } else {
            Err(wrong_length(expected, b.len()))
        },
        Err(e) => Err(e),
    }
}

/// The lower case hexadecimal text of a byte string.
pub open spec fn text_of(b: Seq<u8>) -> Seq<char> {
    Seq::new(
        2 * b.len(),
        |i: int| text::digit_char(if i % 2 == 0 { (b[i / 2] / 16) as nat } else { (b[i / 2] % 16) as nat }),
    )
}

fn hex_value(byte: u8) -> (r: Result<u8, Error>)
    ensures
        match r {
            Ok(v) => nibble(byte) == Some(v) && v < 16,
            Err(e) => nibble(byte) is None && e.deep_view() == "invalid hex character"@,
        },
{
    if 48 <= byte && byte <= 57 {
        Ok(byte - 48)
    } else if 97 <= byte && byte <= 102 {
        Ok(byte - 87)
    } else if 65 <= byte && byte <= 70 {
        Ok(byte - 55)
    } else {
        Err(Error::new("invalid hex character"))
    }
}

/// The bytes that a hexadecimal text stands for.
pub fn decode_hex(input: &str) -> (r: Result<Vec<u8>, Error>)
    ensures
        error::outcome(r) == bytes_of(input@),
{
    let b = input.as_bytes();
    if b.len() % 2 != 0 {
        return Err(Error::new("hex string has odd length"));
    }
    let mut bytes: Vec<u8> = Vec::new();
    let mut i: usize = 0;
    while i < b.len()
        invariant
            b@ == encode_utf8(input@),
            b@.len() % 2 == 0,
            i % 2 == 0,
            i <= b.len(),
            bytes@.len() == i / 2,
            forall|j: int| 0 <= j < i ==> nibble(#[trigger] b@[j]) is Some,
            forall|j: int|
                0 <= j < i / 2 ==> #[trigger] bytes@[j] == (16 * nibble(b@[2 * j])->0 + nibble(
                    b@[2 * j + 1],
                )->0) as u8,
        decreases b.len() - i,
    {
        let high: u8 = match hex_value(b[i]) {
            Ok(v) => v,
            Err(e) => {
                assert(!all_digits(b@));
                return Err(e);
            },
        };
        let low: u8 = match hex_value(b[i + 1]) {
            Ok(v) => v,
            Err(e) => {
                assert(!all_digits(b@));
                return Err(e);
            },
        };
        bytes.push(high * 16 + low);
        i = i + 2;
    }
    assert(all_digits(b@));
    assert(bytes.deep_view() =~= bytes_of(input@)->Ok_0);
    Ok(bytes)
}

/// The `expected` bytes that a hexadecimal text stands for.
pub fn decode_hex_array(input: &str, expected: usize) -> (r: Result<Vec<u8>, Error>)
    ensures
        error::outcome(r) == exact_bytes_of(input@, expected as nat),
        r matches Ok(b) ==> b@ == exact_bytes_of(input@, expected as nat)->Ok_0 && b@.len() == expected,
{
    let bytes = decode_hex(input)?;
    assert(bytes.deep_view() =~= bytes@);
    if bytes.len() == expected {
        Ok(bytes)
    } else {
        let mut message = text::text("expected ");
        text::push_decimal(&mut message, expected as u128);
        message.append(" hex bytes, got ");
        text::push_decimal(&mut message, bytes.len() as u128);
        Err(Error::of(message))
    }
}

/// The lower case hexadecimal text of a byte string.
pub fn hex_encode(bytes: &[u8]) -> (r: String)
    ensures
        r@ == text_of(bytes@),
{
    let mut encoded = String::new();
    let mut i: usize = 0;
    while i < bytes.len()
        invariant
            i <= bytes.len(),
            encoded@ =~= text_of(bytes@.take(i as int)),
        decreases bytes.len() - i,
    {
        let byte: u8 = bytes[i];
        encoded.append(text::digit_text(byte / 16));
        encoded.append(text::digit_text(byte % 16));
        i = i + 1;
    }
    assert(bytes@.take(bytes@.len() as int) =~= bytes@);
    encoded
}

/// A hexadecimal text is made of ASCII digits, one byte each.
pub proof fn text_of_encoding(b: Seq<u8>)
    ensures
        encode_utf8(text_of(b)).len() == 2 * b.len(),
        all_digits(encode_utf8(text_of(b))),
        forall|i: int|
            0 <= i < b.len() ==> nibble(encode_utf8(text_of(b))[2 * i]) == Some((#[trigger] b[i] / 16) as u8)
                && nibble(encode_utf8(text_of(b))[2 * i + 1]) == Some((b[i] % 16) as u8),
{
    let t = text_of(b);
    assert(is_ascii_chars(t)) by {
        assert forall|i: int| 0 <= i < t.len() implies '\0' <= #[trigger] t[i] <= '\u{7f}' by {}
    }
    is_ascii_chars_encode_utf8(t);
    let e = encode_utf8(t);
    assert forall|i: int| 0 <= i < e.len() implies nibble(#[trigger] e[i]) is Some by {
        assert(e[i] == t[i] as u8);
    }
    assert forall|i: int| 0 <= i < b.len() implies nibble(e[2 * i]) == Some((#[trigger] b[i] / 16) as u8)
        && nibble(e[2 * i + 1]) == Some((b[i] % 16) as u8) by {
        assert(e[2 * i] == t[2 * i] as u8);
        assert(e[2 * i + 1] == t[2 * i + 1] as u8);
    }
}

/// Decoding gives back what encoding wrote, for every byte string.
pub proof fn decode_encode(b: Seq<u8>)
    ensures
        bytes_of(text_of(b)) == Ok::<Seq<u8>, Seq<char>>(b),
        exact_bytes_of(text_of(b), b.len()) == Ok::<Seq<u8>, Seq<char>>(b),
{
    text_of_encoding(b);
    assert(bytes_of(text_of(b))->Ok_0 =~= b) by {
        assert forall|i: int| 0 <= i < b.len() implies #[trigger] bytes_of(text_of(b))->Ok_0[i] == b[i] by {
            let v = b[i];
            assert(16 * (v / 16) + v % 16 == v);
        }
    }
}

} // verus!
