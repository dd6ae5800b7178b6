//! Minimal percent-encoding and percent-decoding of relay URLs.

use vstd::prelude::*;
use vstd::utf8::*;

use crate::text::{lossy_utf8, string_from_chars, string_from_utf8_lossy};

verus! {

/// Bytes that stand for themselves in an encoded string: the unreserved characters of
/// RFC 3986 (`A-Z a-z 0-9 - _ . ~`).
pub open spec fn is_unreserved(b: u8) -> bool {
    ||| 0x41 <= b <= 0x5a
    ||| 0x61 <= b <= 0x7a
    ||| 0x30 <= b <= 0x39
    ||| b == 0x2d
    ||| b == 0x5f
    ||| b == 0x2e
    ||| b == 0x7e
}

/// The upper-case hexadecimal digit for `n` (`0 <= n < 16`).
pub open spec fn upper_hex_digit(n: int) -> char {
    if n < 10 {
        (n + 0x30) as char
    } else {
        (n + 0x37) as char
    }
}

/// What one input byte becomes: itself when unreserved, else `%XY` with upper-case hex.
pub open spec fn encode_byte(b: u8) -> Seq<char> {
    if is_unreserved(b) {
        seq![b as char]
    } else {
        seq!['%', upper_hex_digit((b / 16) as int), upper_hex_digit((b % 16) as int)]
    }
}

/// The percent-encoding of a byte sequence.
pub open spec fn percent_encoded(bytes: Seq<u8>) -> Seq<char>
    decreases bytes.len(),
{
    if bytes.len() == 0 {
        seq![]
    } else {
        percent_encoded(bytes.drop_last()) + encode_byte(bytes.last())
    }
}

/// The value of an ASCII hexadecimal digit, either case.
pub open spec fn hex_value(b: u8) -> Option<u8> {
    if 0x30 <= b <= 0x39 {
        Some((b - 0x30) as u8)
    } else if 0x41 <= b <= 0x46 {
        Some((b - 0x37) as u8)
    } else if 0x61 <= b <= 0x66 {
        Some((b - 0x57) as u8)
    } else {
        None
    }
}

/// The byte that the two characters after a `%` stand for when both are hex digits
/// (a `%XX` escape).
pub open spec fn escape_value(b1: u8, b2: u8) -> Option<u8> {
    match (hex_value(b1), hex_value(b2)) {
        (Some(h), Some(l)) => Some((h * 16 + l) as u8),
        _ => None,
    }
}

/// Percent-decoding of bytes: each `%` followed by at least two more bytes that form an
/// escape is replaced by the byte it stands for; every other byte is kept.
pub open spec fn percent_decoded(bytes: Seq<u8>) -> Seq<u8>
    decreases bytes.len(),
{
    if bytes.len() == 0 {
        seq![]
    } else if bytes[0] == 0x25 && bytes.len() >= 3 && escape_value(bytes[1], bytes[2]) is Some {
        seq![escape_value(bytes[1], bytes[2])->0] + percent_decoded(bytes.skip(3))
    } else {
        seq![bytes[0]] + percent_decoded(bytes.skip(1))
    }
}

/// The text that `percent_decode` gives for `s`.
pub open spec fn percent_decoded_text(s: Seq<char>) -> Seq<char> {
    lossy_utf8(percent_decoded(encode_utf8(s)))
}

/// The bytes of a sequence of ASCII characters.
pub open spec fn ascii_bytes(cs: Seq<char>) -> Seq<u8> {
    cs.map_values(|c: char| c as u8)
}

proof fn lemma_encoded_concat(a: Seq<u8>, c: Seq<u8>)
    ensures
        percent_encoded(a + c) == percent_encoded(a) + percent_encoded(c),
    decreases c.len(),
{
    if c.len() == 0 {
        assert(a + c =~= a);
        assert(percent_encoded(a) + percent_encoded(c) =~= percent_encoded(a));
    } else {
        lemma_encoded_concat(a, c.drop_last());
        assert((a + c).drop_last() =~= a + c.drop_last());
        assert((a + c).last() == c.last());
        assert(percent_encoded(a) + percent_encoded(c.drop_last()) + encode_byte(c.last())
            =~= percent_encoded(a) + (percent_encoded(c.drop_last()) + encode_byte(c.last())));
    }
}

proof fn lemma_encoded_front(b: Seq<u8>)
    requires
        b.len() > 0,
    ensures
        percent_encoded(b) == encode_byte(b[0]) + percent_encoded(b.drop_first()),
{
    let first = seq![b[0]];
    assert(first + b.drop_first() =~= b);
    lemma_encoded_concat(first, b.drop_first());
    assert(first.drop_last() =~= Seq::<u8>::empty());
    assert(first.last() == b[0]);
    assert(percent_encoded(first.drop_last()) =~= Seq::<char>::empty());
    assert(percent_encoded(first) =~= encode_byte(b[0]));
}

proof fn lemma_hex_digit(n: int)
    requires
        0 <= n < 16,
    ensures
        '\0' <= upper_hex_digit(n) <= '\u{7f}',
        hex_value(upper_hex_digit(n) as u8) == Some(n as u8),
{
}

proof fn lemma_encode_byte_ascii(x: u8)
    ensures
        is_ascii_chars(encode_byte(x)),
{
    if !is_unreserved(x) {
        lemma_hex_digit((x / 16) as int);
        lemma_hex_digit((x % 16) as int);
    }
}

proof fn lemma_encoded_ascii(b: Seq<u8>)
    ensures
        is_ascii_chars(percent_encoded(b)),
    decreases b.len(),
{
    if b.len() > 0 {
        lemma_encoded_ascii(b.drop_last());
        lemma_encode_byte_ascii(b.last());
        let p = percent_encoded(b.drop_last());
        let e = encode_byte(b.last());
        assert forall|i| 0 <= i < (p + e).len() implies '\0' <= #[trigger] (p + e)[i] <= '\u{7f}' by {
            if i < p.len() {
                assert((p + e)[i] == p[i]);
            } else {
                assert((p + e)[i] == e[i - p.len()]);
            }
        }
    }
}

proof fn lemma_encode_byte_decodes(x: u8, rest: Seq<u8>)
    ensures
        percent_decoded(ascii_bytes(encode_byte(x)) + rest) == seq![x] + percent_decoded(rest),
{
    let all = ascii_bytes(encode_byte(x)) + rest;
    if is_unreserved(x) {
        assert(ascii_bytes(encode_byte(x)) =~= seq![x]);
        assert(all[0] == x);
        assert(all.skip(1) =~= rest);
    } else {
        let hi = (x / 16) as int;
        let lo = (x % 16) as int;
        lemma_hex_digit(hi);
        lemma_hex_digit(lo);
        assert(ascii_bytes(encode_byte(x)) =~= seq![
            0x25u8,
            upper_hex_digit(hi) as u8,
            upper_hex_digit(lo) as u8,
        ]);
        assert(all[0] == 0x25u8);
        assert(all[1] == upper_hex_digit(hi) as u8);
        assert(all[2] == upper_hex_digit(lo) as u8);
        assert(escape_value(all[1], all[2]) == Some(x));
        assert(all.skip(3) =~= rest);
    }
}

proof fn lemma_ascii_bytes_concat(a: Seq<char>, b: Seq<char>)
    ensures
        ascii_bytes(a + b) == ascii_bytes(a) + ascii_bytes(b),
{
    assert(ascii_bytes(a + b) =~= ascii_bytes(a) + ascii_bytes(b));
}

proof fn lemma_decode_encoded_bytes(b: Seq<u8>)
    ensures
        percent_decoded(ascii_bytes(percent_encoded(b))) == b,
    decreases b.len(),
{
    if b.len() == 0 {
        assert(ascii_bytes(percent_encoded(b)) =~= Seq::<u8>::empty());
        assert(b =~= Seq::<u8>::empty());
    } else {
        lemma_encoded_front(b);
        lemma_ascii_bytes_concat(encode_byte(b[0]), percent_encoded(b.drop_first()));
        lemma_encode_byte_decodes(b[0], ascii_bytes(percent_encoded(b.drop_first())));
        lemma_decode_encoded_bytes(b.drop_first());
        assert(seq![b[0]] + b.drop_first() =~= b);
    }
}

/// The bytes of the encoded text are its characters, one byte each.
pub proof fn lemma_encoded_utf8(b: Seq<u8>)
    ensures
        is_ascii_chars(percent_encoded(b)),
        encode_utf8(percent_encoded(b)) == ascii_bytes(percent_encoded(b)),
{
    let e = percent_encoded(b);
    lemma_encoded_ascii(b);
    is_ascii_chars_encode_utf8(e);
    assert(encode_utf8(e) =~= ascii_bytes(e));
}

/// Decoding the percent-encoding of any text gives that text back.
pub proof fn lemma_percent_decode_encode(s: Seq<char>)
    ensures
        percent_decoded_text(percent_encoded(encode_utf8(s))) == s,
{
    broadcast use encode_utf8_valid_utf8, encode_utf8_decode_utf8;

    let b = encode_utf8(s);
    lemma_encoded_utf8(b);
    lemma_decode_encoded_bytes(b);
}

proof fn lemma_encode_utf8_concat(a: Seq<char>, b: Seq<char>)
    ensures
        encode_utf8(a + b) == encode_utf8(a) + encode_utf8(b),
    decreases a.len(),
{
    if a.len() == 0 {
        assert(a + b =~= b);
        assert(encode_utf8(a) + encode_utf8(b) =~= encode_utf8(b));
    } else {
        lemma_encode_utf8_concat(a.drop_first(), b);
        assert((a + b).drop_first() =~= a.drop_first() + b);
        assert((a + b)[0] == a[0]);
        let head = encode_scalar(a[0] as u32);
        assert(head + (encode_utf8(a.drop_first()) + encode_utf8(b)) =~= (head + encode_utf8(
            a.drop_first(),
        )) + encode_utf8(b));
    }
}

/// Encoding two texts joined gives their two encodings joined.
pub proof fn lemma_percent_encode_concat(a: Seq<char>, b: Seq<char>)
    ensures
        percent_encoded(encode_utf8(a + b)) == percent_encoded(encode_utf8(a)) + percent_encoded(
            encode_utf8(b),
        ),
{
    lemma_encode_utf8_concat(a, b);
    lemma_encoded_concat(encode_utf8(a), encode_utf8(b));
}

proof fn lemma_scalar_bytes_no_percent(c: char)
    requires
        c != '%',
    ensures
        forall|i: int| 0 <= i < encode_scalar(c as u32).len() ==> #[trigger] encode_scalar(
            c as u32,
        )[i] != 0x25,
{
    broadcast use char_is_scalar;

    let v = c as u32;
    assert(v != 0x25);
    if has_width_1_encoding(v) {
        assert(((v & 0x7F) as u8) != 0x25) by (bit_vector)
            requires
                v <= 0x7F,
                v != 0x25,
        ;
    } else {
        let e = encode_scalar(v);
        assert(forall|i: int| 0 <= i < e.len() ==> #[trigger] e[i] >= 0x80) by {
            assert((0xC0 | ((v >> 6) & 0x1F) as u8) >= 0x80) by (bit_vector);
            assert((0xE0 | ((v >> 12) & 0x0F) as u8) >= 0x80) by (bit_vector);
            assert((0xF0 | ((v >> 18) & 0x7) as u8) >= 0x80) by (bit_vector);
            assert((0x80 | (v & 0x3F) as u8) >= 0x80) by (bit_vector);
            assert((0x80 | ((v >> 6) & 0x3F) as u8) >= 0x80) by (bit_vector);
            assert((0x80 | ((v >> 12) & 0x3F) as u8) >= 0x80) by (bit_vector);
        }
    }
}

proof fn lemma_utf8_no_percent(s: Seq<char>)
    requires
        !s.contains('%'),
    ensures
        forall|i: int| 0 <= i < encode_utf8(s).len() ==> #[trigger] encode_utf8(s)[i] != 0x25,
    decreases s.len(),
{
    if s.len() > 0 {
        assert(!s.drop_first().contains('%')) by {
            if s.drop_first().contains('%') {
                let k = choose|k: int| 0 <= k < s.drop_first().len() && s.drop_first()[k] == '%';
                assert(s[k + 1] == '%');
            }
        }
        assert(s[0] != '%');
        lemma_scalar_bytes_no_percent(s[0]);
        lemma_utf8_no_percent(s.drop_first());
        let head = encode_scalar(s[0] as u32);
        let tail = encode_utf8(s.drop_first());
        assert(encode_utf8(s) == head + tail);
        assert forall|i: int| 0 <= i < encode_utf8(s).len() implies #[trigger] encode_utf8(s)[i]
            != 0x25 by {
            if i < head.len() {
                assert(encode_utf8(s)[i] == head[i]);
            } else {
                assert(encode_utf8(s)[i] == tail[i - head.len()]);
            }
        }
    }
}

proof fn lemma_decoded_plain_bytes(b: Seq<u8>)
    requires
        forall|i: int| 0 <= i < b.len() ==> #[trigger] b[i] != 0x25,
    ensures
        percent_decoded(b) == b,
    decreases b.len(),
{
    if b.len() > 0 {
        assert(b[0] != 0x25);
        assert forall|i: int| 0 <= i < b.skip(1).len() implies #[trigger] b.skip(1)[i] != 0x25 by {
            assert(b.skip(1)[i] == b[i + 1]);
        }
        lemma_decoded_plain_bytes(b.skip(1));
        assert(seq![b[0]] + b.skip(1) =~= b);
    }
}

/// Decoding a text with no `%` in it gives the text back unchanged.
pub proof fn lemma_percent_decode_plain(s: Seq<char>)
    requires
        !s.contains('%'),
    ensures
        percent_decoded_text(s) == s,
{
    broadcast use encode_utf8_valid_utf8, encode_utf8_decode_utf8;

    lemma_utf8_no_percent(s);
    lemma_decoded_plain_bytes(encode_utf8(s));
}

/// The upper-case hexadecimal digits, in order of value.
pub open spec fn upper_hex_digits() -> Seq<char> {
    seq!['0', '1', '2', '3', '4', '5', '6', '7', '8', '9', 'A', 'B', 'C', 'D', 'E', 'F']
}

/// The lower-case hexadecimal digits, in order of value.
pub open spec fn lower_hex_digits() -> Seq<char> {
    seq!['0', '1', '2', '3', '4', '5', '6', '7', '8', '9', 'a', 'b', 'c', 'd', 'e', 'f']
}

/// The unreserved characters of RFC 3986: ASCII letters and digits, `-`, `_`, `.`, `~`.
pub open spec fn rfc3986_unreserved(c: char) -> bool {
    ('A' <= c <= 'Z') || ('a' <= c <= 'z') || ('0' <= c <= '9') || c == '-' || c == '_' || c
        == '.' || c == '~'
}

proof fn lemma_digit_tables(n: int)
    requires
        0 <= n < 16,
    ensures
        upper_hex_digit(n) == upper_hex_digits()[n],
        hex_value(upper_hex_digits()[n] as u8) == Some(n as u8),
        hex_value(lower_hex_digits()[n] as u8) == Some(n as u8),
        (upper_hex_digits()[n] as u32) < 0x80,
        (lower_hex_digits()[n] as u32) < 0x80,
{
    let u = upper_hex_digits();
    let l = lower_hex_digits();
    assert(u.len() == 16 && l.len() == 16);
    if n == 0 {
        assert(u[0] == '0' && l[0] == '0');
    } else if n == 1 {
        assert(u[1] == '1' && l[1] == '1');
    } else if n == 2 {
        assert(u[2] == '2' && l[2] == '2');
    } else if n == 3 {
        assert(u[3] == '3' && l[3] == '3');
    } else if n == 4 {
        assert(u[4] == '4' && l[4] == '4');
    } else if n == 5 {
        assert(u[5] == '5' && l[5] == '5');
    } else if n == 6 {
        assert(u[6] == '6' && l[6] == '6');
    } else if n == 7 {
        assert(u[7] == '7' && l[7] == '7');
    } else if n == 8 {
        assert(u[8] == '8' && l[8] == '8');
    } else if n == 9 {
        assert(u[9] == '9' && l[9] == '9');
    } else if n == 10 {
        assert(u[10] == 'A' && l[10] == 'a');
    } else if n == 11 {
        assert(u[11] == 'B' && l[11] == 'b');
    } else if n == 12 {
        assert(u[12] == 'C' && l[12] == 'c');
    } else if n == 13 {
        assert(u[13] == 'D' && l[13] == 'd');
    } else if n == 14 {
        assert(u[14] == 'E' && l[14] == 'e');
    } else {
        assert(u[15] == 'F' && l[15] == 'f');
    }
}

/// Each byte is encoded on its own: an unreserved character stands for itself, and any
/// other byte is written as `%` followed by the two upper-case hex digits of its value
/// (first `b / 16`, then `b % 16`).
pub proof fn lemma_percent_encode_byte(b: u8)
    ensures
        percent_encoded(seq![b]) == (if rfc3986_unreserved(b as char) {
            seq![b as char]
        } else {
            seq!['%', upper_hex_digits()[(b / 16) as int], upper_hex_digits()[(b % 16) as int]]
        }),
{
    assert(seq![b].drop_last() =~= Seq::<u8>::empty());
    assert(seq![b].last() == b);
    assert(percent_encoded(Seq::<u8>::empty()) =~= Seq::<char>::empty());
    assert(percent_encoded(seq![b]) =~= encode_byte(b));
    assert(is_unreserved(b) == rfc3986_unreserved(b as char));
    lemma_digit_tables((b / 16) as int);
    lemma_digit_tables((b % 16) as int);
}

/// A text made only of unreserved characters is its own encoding.
pub proof fn lemma_percent_encode_unreserved_text(s: Seq<char>)
    requires
        forall|i: int| 0 <= i < s.len() ==> rfc3986_unreserved(#[trigger] s[i]),
    ensures
        percent_encoded(encode_utf8(s)) == s,
    decreases s.len(),
{
    if s.len() > 0 {
        let c = s.last();
        let front = s.drop_last();
        assert(front + seq![c] =~= s);
        lemma_percent_encode_unreserved_text(front);
        lemma_percent_encode_concat(front, seq![c]);
        assert(rfc3986_unreserved(c));
        assert(encode_utf8(seq![c]) == seq![c as u8]) by {
            assert(seq![c].drop_first() =~= Seq::<char>::empty());
            assert(encode_utf8(Seq::<char>::empty()) =~= Seq::<u8>::empty());
            assert(seq![c][0] == c);
            assert(encode_utf8(seq![c]) =~= encode_scalar(c as u32));
            let v = c as u32;
            assert(v <= 0x7f);
            assert(((v & 0x7F) as u8) == (v as u8)) by (bit_vector)
                requires
                    v <= 0x7F,
            ;
        }
        lemma_percent_encode_byte(c as u8);
        assert((c as u8) as char == c);
    }
}

/// A `%` followed by two hex digits, each of either case, decodes to the byte that they
/// write: sixteen times the value of the first plus the value of the second. The rest of
/// the input is decoded after it.
pub proof fn lemma_percent_decode_escape(h: int, l: int, upper_h: bool, upper_l: bool, rest: Seq<u8>)
    requires
        0 <= h < 16,
        0 <= l < 16,
    ensures
        ({
            let x = if upper_h { upper_hex_digits()[h] } else { lower_hex_digits()[h] };
            let y = if upper_l { upper_hex_digits()[l] } else { lower_hex_digits()[l] };
            percent_decoded(seq![0x25u8, x as u8, y as u8] + rest) == seq![(16 * h + l) as u8]
                + percent_decoded(rest)
        }),
{
    lemma_digit_tables(h);
    lemma_digit_tables(l);
    let x = if upper_h { upper_hex_digits()[h] } else { lower_hex_digits()[h] };
    let y = if upper_l { upper_hex_digits()[l] } else { lower_hex_digits()[l] };
    let all = seq![0x25u8, x as u8, y as u8] + rest;
    assert(all[0] == 0x25u8);
    assert(all[1] == x as u8);
    assert(all[2] == y as u8);
    assert(all.skip(3) =~= rest);
}

/// Decoding the text `%XY`, with `X` and `Y` hex digits of either case, gives the text of
/// the single byte they write.
pub proof fn lemma_percent_decode_escape_text(h: int, l: int, upper_h: bool, upper_l: bool)
    requires
        0 <= h < 16,
        0 <= l < 16,
    ensures
        ({
            let x = if upper_h { upper_hex_digits()[h] } else { lower_hex_digits()[h] };
            let y = if upper_l { upper_hex_digits()[l] } else { lower_hex_digits()[l] };
            percent_decoded_text(seq!['%', x, y]) == lossy_utf8(seq![(16 * h + l) as u8])
        }),
{
    broadcast use is_ascii_chars_encode_utf8;

    lemma_digit_tables(h);
    lemma_digit_tables(l);
    let x = if upper_h { upper_hex_digits()[h] } else { lower_hex_digits()[h] };
    let y = if upper_l { upper_hex_digits()[l] } else { lower_hex_digits()[l] };
    let t = seq!['%', x, y];
    assert(is_ascii_chars(t));
    assert(encode_utf8(t) =~= seq![0x25u8, x as u8, y as u8]);
    lemma_percent_decode_escape(h, l, upper_h, upper_l, Seq::empty());
    assert(seq![0x25u8, x as u8, y as u8] + Seq::<u8>::empty() =~= seq![0x25u8, x as u8, y as u8]);
    assert(seq![(16 * h + l) as u8] + Seq::<u8>::empty() =~= seq![(16 * h + l) as u8]);
}

fn upper_hex_char(n: u8) -> (c: char)
    requires
        n < 16,
    ensures
        c == upper_hex_digit(n as int),
        c as u8 == (if n < 10 { n + 0x30 } else { n + 0x37 }),
{
    if n < 10 {
        ((n + 0x30) as u8) as char
    } else {
        ((n + 0x37) as u8) as char
    }
}

/// Percent-encodes every byte of `input` that is not an unreserved character.
pub fn percent_encode(input: &str) -> (out: String)
    ensures
        out@ == percent_encoded(encode_utf8(input@)),
{
    let bytes = input.as_bytes();
    let mut out: Vec<char> = Vec::new();
    let mut i: usize = 0;
    while i < bytes.len()
        invariant
            i <= bytes@.len(),
            bytes@ == encode_utf8(input@),
            out@ == percent_encoded(bytes@.take(i as int)),
        decreases bytes@.len() - i,
    {
        let b = bytes[i];
        proof {
            assert(bytes@.take(i + 1).drop_last() =~= bytes@.take(i as int));
        }
        if (b >= 0x41 && b <= 0x5a) || (b >= 0x61 && b <= 0x7a) || (b >= 0x30 && b <= 0x39)
            || b == 0x2d || b == 0x5f || b == 0x2e || b == 0x7e {
            out.push(b as char);
        } else {
            out.push('%');
            out.push(upper_hex_char(b / 16));
            out.push(upper_hex_char(b % 16));
        }
        i = i + 1;
    }
    proof {
        assert(bytes@.take(bytes@.len() as int) =~= bytes@);
    }
    string_from_chars(out)
}

fn hex_digit_value(b: u8) -> (r: Option<u8>)
    ensures
        r == hex_value(b),
{
    if b >= 0x30 && b <= 0x39 {
        Some(b - 0x30)
    } else if b >= 0x41 && b <= 0x46 {
        Some(b - 0x37)
    } else if b >= 0x61 && b <= 0x66 {
        Some(b - 0x57)
    } else {
        None
    }
}

fn escape_byte(b1: u8, b2: u8) -> (r: Option<u8>)
    ensures
        r == escape_value(b1, b2),
{
    match (hex_digit_value(b1), hex_digit_value(b2)) {
        (Some(h), Some(l)) => Some(h * 16 + l),
        _ => None,
    }
}

/// Replaces `%XX` escapes with the bytes they stand for and reads the result as UTF-8,
/// with invalid sequences replaced by the Unicode replacement character.
pub fn percent_decode(input: &str) -> (out: String)
    ensures
        out@ == percent_decoded_text(input@),
{
    let bytes = input.as_bytes();
    let mut out: Vec<u8> = Vec::new();
    let mut i: usize = 0;
    proof {
        assert(bytes@.skip(0) =~= bytes@);
        assert(out@ + percent_decoded(bytes@) =~= percent_decoded(bytes@));
    }
    while i < bytes.len()
        invariant
            i <= bytes@.len(),
            bytes@ == encode_utf8(input@),
            out@ + percent_decoded(bytes@.skip(i as int)) == percent_decoded(bytes@),
        decreases bytes@.len() - i,
    {
        let ghost rest = bytes@.skip(i as int);
        if bytes[i] == 0x25 && bytes.len() - i > 2 {
            if let Some(decoded) = escape_byte(bytes[i + 1], bytes[i + 2]) {
                proof {
                    assert(rest[0] == bytes@[i as int]);
                    assert(rest[1] == bytes@[i + 1]);
                    assert(rest[2] == bytes@[i + 2]);
                    assert(rest.skip(3) =~= bytes@.skip(i + 3));
                    assert(out@.push(decoded) + percent_decoded(bytes@.skip(i + 3)) =~= out@
                        + percent_decoded(rest));
                }
                out.push(decoded);
                i = i + 3;
                continue;
            }
        }
        proof {
            assert(rest[0] == bytes@[i as int]);
            assert(rest.skip(1) =~= bytes@.skip(i + 1));
            assert(rest.len() >= 3 ==> rest[1] == bytes@[i + 1] && rest[2] == bytes@[i + 2]);
            assert(out@.push(bytes@[i as int]) + percent_decoded(bytes@.skip(i + 1)) =~= out@
                + percent_decoded(rest));
        }
        out.push(bytes[i]);
        i = i + 1;
    }
    proof {
        assert(bytes@.skip(bytes@.len() as int) =~= Seq::<u8>::empty());
        assert(out@ + percent_decoded(Seq::<u8>::empty()) =~= out@);
    }
    string_from_utf8_lossy(out.as_slice())
}

} // verus!
