//! Percent encoding of what goes into a URL.

use vstd::prelude::*;
use vstd::utf8::*;

verus! {

/// The byte stands for itself in a URL: a letter or digit of ASCII, or one of `-_.~`.
pub open spec fn unreserved(b: u8) -> bool {
    ||| 0x41 <= b <= 0x5a
    ||| 0x61 <= b <= 0x7a
    ||| 0x30 <= b <= 0x39
    ||| b == 0x2d
    ||| b == 0x5f
    ||| b == 0x2e
    ||| b == 0x7e
}

/// The hexadecimal digit for `d`, in upper case.
pub open spec fn hex_digit(d: nat) -> char
    recommends
        d < 16,
{
    if d < 10 {
        (0x30 + d) as char
    } else {
        (0x41 + d - 10) as char
    }
}

/// The byte in a URL: itself, or `%` and its two hexadecimal digits.
pub open spec fn encoded_byte(b: u8) -> Seq<char> {
    if unreserved(b) {
        seq![b as char]
    } else {
        seq!['%', hex_digit(b as nat / 16), hex_digit(b as nat % 16)]
    }
}

/// The bytes in a URL, one after the other.
pub open spec fn percent_encoded(bytes: Seq<u8>) -> Seq<char>
    decreases bytes.len(),
{
    if bytes.len() == 0 {
        Seq::empty()
    } else {
        percent_encoded(bytes.drop_last()) + encoded_byte(bytes.last())
    }
}

/// The text in a URL: the bytes of its UTF-8 form, percent encoded.
pub open spec fn url_encoded(text: Seq<char>) -> Seq<char> {
    percent_encoded(encode_utf8(text))
}

/// The value of a hexadecimal digit in upper case.
pub open spec fn hex_value(c: char) -> nat {
    if 0x30 <= c as u32 <= 0x39 {
        (c as u32 - 0x30) as nat
    } else {
        (c as u32 - 0x41 + 10) as nat
    }
}

/// The bytes that a percent encoded text stands for.
pub open spec fn percent_decoded(s: Seq<char>) -> Seq<u8>
    decreases s.len(),
{
    if s.len() == 0 {
        Seq::empty()
    } else if s[0] == '%' && s.len() >= 3 {
        seq![(hex_value(s[1]) * 16 + hex_value(s[2])) as u8] + percent_decoded(s.skip(3))
    } else {
        seq![s[0] as u8] + percent_decoded(s.skip(1))
    }
}

proof fn lemma_encoded_concat(a: Seq<u8>, b: Seq<u8>)
    ensures
        percent_encoded(a + b) == percent_encoded(a) + percent_encoded(b),
    decreases b.len(),
{
    if b.len() == 0 {
        assert(a + b == a);
        assert(percent_encoded(a) + percent_encoded(b) == percent_encoded(a));
    } else {
        assert((a + b).drop_last() == a + b.drop_last());
        lemma_encoded_concat(a, b.drop_last());
        assert(percent_encoded(a + b) == percent_encoded(a) + percent_encoded(b));
    }
}

proof fn lemma_encoded_first(bytes: Seq<u8>)
    requires
        bytes.len() > 0,
    ensures
        percent_encoded(bytes) == encoded_byte(bytes[0]) + percent_encoded(bytes.skip(1)),
{
    let first = seq![bytes[0]];
    assert(bytes == first + bytes.skip(1));
    lemma_encoded_concat(first, bytes.skip(1));
    reveal_with_fuel(percent_encoded, 2);
    assert(first.drop_last() == Seq::<u8>::empty());
    assert(percent_encoded(first) == encoded_byte(bytes[0]));
}

/// Decoding what was encoded gives the bytes back.
pub proof fn law_decoding_restores(bytes: Seq<u8>)
    ensures
        percent_decoded(percent_encoded(bytes)) == bytes,
    decreases bytes.len(),
{
    if bytes.len() > 0 {
        let rest = bytes.skip(1);
        let s = percent_encoded(bytes);
        let b = bytes[0];
        lemma_encoded_first(bytes);
        law_decoding_restores(rest);
        assert(bytes == seq![b] + rest);
        if unreserved(b) {
            assert(s[0] == b as char);
            assert(s.skip(1) == percent_encoded(rest));
        } else {
            assert(s[0] == '%');
            assert(s[1] == hex_digit(b as nat / 16));
            assert(s[2] == hex_digit(b as nat % 16));
            assert(s.skip(3) == percent_encoded(rest));
        }
    }
}

/// Two different texts never look alike in a URL.
pub proof fn law_url_encoding_is_injective(a: Seq<char>, b: Seq<char>)
    requires
        url_encoded(a) == url_encoded(b),
    ensures
        a == b,
{
    law_decoding_restores(encode_utf8(a));
    law_decoding_restores(encode_utf8(b));
    encode_utf8_decode_utf8(a);
    encode_utf8_decode_utf8(b);
}

/// The character stands for itself in a URL, or is `%`.
pub open spec fn url_safe(c: char) -> bool {
    c == '%' || exists|b: u8| #[trigger] unreserved(b) && c == b as char
}

proof fn lemma_encoded_byte_safe(b: u8, i: int)
    requires
        0 <= i < encoded_byte(b).len(),
    ensures
        url_safe(encoded_byte(b)[i]),
{
    if unreserved(b) {
        assert(encoded_byte(b)[i] == b as char);
    } else if i > 0 {
        let c = encoded_byte(b)[i];
        let d = if i == 1 {
            b as nat / 16
        } else {
            b as nat % 16
        };
        assert(c == hex_digit(d));
        let w = if d < 10 {
            (0x30 + d) as u8
        } else {
            (0x41 + d - 10) as u8
        };
        assert(unreserved(w) && c == w as char);
    }
}

/// What is encoded holds only characters that stand for themselves in a URL, and `%`:
/// it can neither end the path segment or query value that it stands in nor start another.
pub proof fn law_encoded_is_url_safe(bytes: Seq<u8>)
    ensures
        forall|i: int|
            0 <= i < percent_encoded(bytes).len() ==> url_safe(#[trigger] percent_encoded(bytes)[i]),
    decreases bytes.len(),
{
    if bytes.len() > 0 {
        let before = percent_encoded(bytes.drop_last());
        law_encoded_is_url_safe(bytes.drop_last());
        assert forall|i: int| 0 <= i < percent_encoded(bytes).len() implies url_safe(
            #[trigger] percent_encoded(bytes)[i],
        ) by {
            if i < before.len() {
                assert(percent_encoded(bytes)[i] == before[i]);
            } else {
                lemma_encoded_byte_safe(bytes.last(), i - before.len());
            }
        }
    }
}

/// The hexadecimal digit for `d`, in upper case.
fn upper_hex(d: u8) -> (c: char)
    requires
        d < 16,
    ensures
        c == hex_digit(d as nat),
{
    if d < 10 {
        (0x30u8 + d) as char
    } else {
        (0x41u8 + (d - 10)) as char
    }
}

/// The text as it stands in a URL.
pub fn urlencode(value: &str) -> (out: String)
    ensures
        out@ == url_encoded(value@),
{
    let mut out: String = String::new();
    let bytes: &[u8] = value.as_bytes();
    let mut i: usize = 0;
    while i < bytes.len()
        invariant
            bytes@ == encode_utf8(value@),
            i <= bytes@.len(),
            out@ == percent_encoded(bytes@.take(i as int)),
        decreases bytes.len() - i,
    {
        let b: u8 = bytes[i];
        let ghost before = out@;
        if (0x41 <= b && b <= 0x5a) || (0x61 <= b && b <= 0x7a) || (0x30 <= b && b <= 0x39) || b
            == 0x2d || b == 0x5f || b == 0x2e || b == 0x7e {
            out.push(b as char);
        } else {
            out.push('%');
            out.push(upper_hex(b / 16));
            out.push(upper_hex(b % 16));
        }
        assert(out@ == before + encoded_byte(b));
        assert(bytes@.take(i + 1).drop_last() == bytes@.take(i as int));
        i = i + 1;
    }
    assert(bytes@.take(i as int) == bytes@);
    out
}

/// What stands for itself in a URL and what does not: letters and digits of ASCII and
/// `-`, `_`, `.` and `~` do, every other byte is `%` and the two hexadecimal digits of its
/// value; and the bytes of a text are encoded one after the other.
pub proof fn law_bytes_in_a_url(b: u8, a: Seq<u8>, c: Seq<u8>, text: Seq<char>)
    ensures
        ({
            let e = percent_encoded(seq![b]);
            let plain = 'A' <= b as char <= 'Z' || 'a' <= b as char <= 'z' || '0' <= b as char <= '9'
                || b as char == '-' || b as char == '_' || b as char == '.' || b as char == '~';
            if plain {
                e == seq![b as char]
            } else {
                &&& e.len() == 3
                &&& e[0] == '%'
                &&& forall|i: int| #![trigger e[i]] 1 <= i < 3 ==> '0' <= e[i] <= '9' || 'A' <= e[i] <= 'F'
                &&& b == 16 * upper_hex_value(e[1]) + upper_hex_value(e[2])
            }
        }),
        percent_encoded(a + c) == percent_encoded(a) + percent_encoded(c),
        percent_encoded(Seq::empty()).len() == 0,
        url_encoded(text) == percent_encoded(encode_utf8(text)),
{
    lemma_encoded_concat(a, c);
    lemma_encoded_first(seq![b]);
    assert(seq![b].skip(1) =~= Seq::<u8>::empty());
    assert(percent_encoded(seq![b]) =~= encoded_byte(b));
}

/// The value of a digit or of a letter from `A` to `F`.
pub open spec fn upper_hex_value(c: char) -> int {
    if c <= '9' {
        c as int - '0' as int
    } else {
        c as int - 'A' as int + 10
    }
}

} // verus!
