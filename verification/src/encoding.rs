//! How bytes travel as text: base64 and percent-encoding.

use vstd::prelude::*;
use vstd::string::*;
use vstd::utf8::*;

use base64::Engine as _;

verus! {

// ---------------------------------------------------------------------------
// Base64
// ---------------------------------------------------------------------------

/// The base64 digit of a number below 64.
pub open spec fn base64_digit(n: int) -> char {
    if n < 26 {
        (65 + n) as u8 as char
    } else if n < 52 {
        (97 + n - 26) as u8 as char
    } else if n < 62 {
        (48 + n - 52) as u8 as char
    } else if n == 62 {
        '+'
    } else {
        '/'
    }
}

/// The base64 form of some bytes: three bytes are four digits, and a rest of
/// one or two bytes is filled up with `=`.
pub open spec fn base64_of(b: Seq<u8>) -> Seq<char>
    decreases b.len(),
{
    if b.len() == 0 {
        Seq::empty()
    } else if b.len() == 1 {
        seq![base64_digit(b[0] as int / 4), base64_digit(b[0] as int % 4 * 16), '=', '=']
    } else if b.len() == 2 {
        seq![
            base64_digit(b[0] as int / 4),
            base64_digit(b[0] as int % 4 * 16 + b[1] as int / 16),
            base64_digit(b[1] as int % 16 * 4),
            '=',
        ]
    } else {
        seq![
            base64_digit(b[0] as int / 4),
            base64_digit(b[0] as int % 4 * 16 + b[1] as int / 16),
            base64_digit(b[1] as int % 16 * 4 + b[2] as int / 64),
            base64_digit(b[2] as int % 64),
        ] + base64_of(b.skip(3))
    }
}

/// Whether there can be room for the base64 form of so many bytes.
pub open spec fn base64_fits(len: nat) -> bool {
    len <= isize::MAX / 2
}

/// Whether there can be room for the base64 form of so many bytes.
pub fn can_encode(len: usize) -> (fits: bool)
    ensures
        fits == base64_fits(len as nat),
{
    len <= isize::MAX as usize / 2
}

/// `encode` of the `STANDARD` engine of the base64 crate: the standard alphabet
/// of RFC 4648 with padding. It panics where the length of the result overflows.
#[verifier::external_body]
pub(crate) fn base64_text(bytes: &[u8]) -> (text: String)
    requires
        base64_fits(bytes@.len()),
    ensures
        text@ == base64_of(bytes@),
{
    base64::engine::general_purpose::STANDARD.encode(bytes)
}

// ---------------------------------------------------------------------------
// Percent-encoding
// ---------------------------------------------------------------------------

/// Whether a byte stands for itself in a URL query.
pub open spec fn is_unreserved(b: u8) -> bool {
    ||| 65 <= b <= 90
    ||| 97 <= b <= 122
    ||| 48 <= b <= 57
    ||| b == 45
    ||| b == 95
    ||| b == 46
    ||| b == 126
}

/// An upper-case hexadecimal digit.
pub open spec fn hex_digit(n: int) -> char {
    if n < 10 {
        (48 + n) as u8 as char
    } else {
        (65 + n - 10) as u8 as char
    }
}

/// One byte in a URL query.
pub open spec fn byte_encoded(b: u8) -> Seq<char> {
    if is_unreserved(b) {
        seq![b as char]
    } else {
        seq!['%', hex_digit(b as int / 16), hex_digit(b as int % 16)]
    }
}

/// Some bytes in a URL query.
pub open spec fn url_encoded(bytes: Seq<u8>) -> Seq<char>
    decreases bytes.len(),
{
    if bytes.len() == 0 {
        Seq::empty()
    } else {
        byte_encoded(bytes[0]) + url_encoded(bytes.skip(1))
    }
}

fn hex(n: u8) -> (digit: char)
    requires
        n < 16,
    ensures
        digit == hex_digit(n as int),
{
    if n < 10 {
        (48 + n) as char
    } else {
        (65 + n - 10) as char
    }
}

/// A text in a URL query: every byte that is not a letter, a digit, `-`, `_`,
/// `.` or `~` is written as `%` and two hexadecimal digits.
pub fn urlencode(s: &str) -> (text: String)
    ensures
        text@ == url_encoded(encode_utf8(s@)),
{
    let bytes: &[u8] = s.as_bytes();
    let mut text = String::new();
    let mut i: usize = 0;
    assert(bytes@.skip(0) =~= bytes@);
    while i < bytes.len()
        invariant
            bytes@ == encode_utf8(s@),
            0 <= i <= bytes@.len(),
            url_encoded(bytes@) == text@ + url_encoded(bytes@.skip(i as int)),
        decreases bytes@.len() - i,
    {
        let b: u8 = bytes[i];
        let ghost before = text@;
        let ghost rest = url_encoded(bytes@.skip(i + 1));
        assert(bytes@.skip(i as int).skip(1) =~= bytes@.skip(i + 1));
        if (65 <= b && b <= 90) || (97 <= b && b <= 122) || (48 <= b && b <= 57) || b == 45 || b
            == 95 || b == 46 || b == 126 {
            text.push(b as char);
        } else {
            text.push('%');
            text.push(hex(b / 16));
            text.push(hex(b % 16));
        }
        assert(text@ =~= before + byte_encoded(b));
        assert(before + (byte_encoded(b) + rest) =~= text@ + rest);
        i += 1;
    }
    assert(bytes@.skip(i as int) =~= Seq::empty());
    assert(text@ + Seq::<char>::empty() =~= text@);
    text
}

/// An encoded text holds only letters, digits, `-`, `_`, `.`, `~` and `%`: no
/// character that could end a query value.
pub proof fn law_encoded_text_is_safe(bytes: Seq<u8>, i: int)
    requires
        0 <= i < url_encoded(bytes).len(),
    ensures
        ({
            let c = url_encoded(bytes)[i];
            ||| 'A' <= c <= 'Z'
            ||| 'a' <= c <= 'z'
            ||| '0' <= c <= '9'
            ||| c == '-'
            ||| c == '_'
            ||| c == '.'
            ||| c == '~'
            ||| c == '%'
        }),
    decreases bytes.len(),
{
    let first = byte_encoded(bytes[0]);
    if i >= first.len() {
        law_encoded_text_is_safe(bytes.skip(1), i - first.len());
    }
}

/// The value of an upper-case hexadecimal digit.
pub open spec fn hex_value(c: char) -> int {
    if c <= '9' {
        c as int - 48
    } else {
        c as int - 65 + 10
    }
}

/// What a query value stands for: `%` and two hexadecimal digits are one byte,
/// any other character is its own byte.
pub open spec fn url_decoded(s: Seq<char>) -> Seq<u8>
    decreases s.len(),
{
    if s.len() == 0 {
        Seq::empty()
    } else if s[0] == '%' && s.len() >= 3 {
        seq![(16 * hex_value(s[1]) + hex_value(s[2])) as u8] + url_decoded(s.skip(3))
    } else {
        seq![s[0] as u8] + url_decoded(s.skip(1))
    }
}

/// An encoded text stands for the bytes that were encoded.
pub proof fn law_encoded_text_is_decoded(bytes: Seq<u8>)
    ensures
        url_decoded(url_encoded(bytes)) == bytes,
    decreases bytes.len(),
{
    if bytes.len() > 0 {
        let b = bytes[0];
        let rest = url_encoded(bytes.skip(1));
        let all = url_encoded(bytes);
        law_encoded_text_is_decoded(bytes.skip(1));
        if is_unreserved(b) {
            assert(all.skip(1) =~= rest);
            assert(all[0] == b as char);
            assert((b as char) as u8 == b);
        } else {
            assert(all.skip(3) =~= rest);
            assert(16 * hex_value(all[1]) + hex_value(all[2]) == b);
        }
        assert(bytes =~= seq![b] + bytes.skip(1));
    }
}

/// Bytes are encoded one by one: a letter, a digit, `-`, `_`, `.` and `~` stand
/// for themselves, and any other byte is `%` and two upper-case hexadecimal
/// digits.
pub proof fn law_bytes_are_encoded_one_by_one(first: Seq<u8>, second: Seq<u8>, b: u8)
    ensures
        url_encoded(Seq::empty()) == Seq::<char>::empty(),
        url_encoded(first + second) == url_encoded(first) + url_encoded(second),
        ({
            let c = b as char;
            let encoded = url_encoded(seq![b]);
            if 'A' <= c <= 'Z' || 'a' <= c <= 'z' || '0' <= c <= '9' || c == '-' || c == '_' || c
                == '.' || c == '~' {
                encoded == seq![c]
            } else {
                &&& encoded.len() == 3
                &&& encoded[0] == '%'
                &&& '0' <= encoded[1] <= '9' || 'A' <= encoded[1] <= 'F'
                &&& '0' <= encoded[2] <= '9' || 'A' <= encoded[2] <= 'F'
                &&& 16 * hex_value(encoded[1]) + hex_value(encoded[2]) == b
            }
        }),
    decreases first.len(),
{
    assert(seq![b].skip(1) =~= Seq::empty());
    assert(url_encoded(seq![b].skip(1)) =~= Seq::empty());
    assert(byte_encoded(b) + Seq::<char>::empty() =~= byte_encoded(b));
    if first.len() == 0 {
        assert(first + second =~= second);
        assert(url_encoded(first) + url_encoded(second) =~= url_encoded(second));
    } else {
        law_bytes_are_encoded_one_by_one(first.skip(1), second, b);
        assert((first + second).skip(1) =~= first.skip(1) + second);
        assert(url_encoded(first + second) =~= url_encoded(first) + url_encoded(second));
    }
}

/// There is room for the base64 form of as many bytes as a buffer can hold.
pub proof fn law_base64_has_room(len: nat)
    requires
        2 * len <= isize::MAX,
    ensures
        base64_fits(len),
{
}

} // verus!
