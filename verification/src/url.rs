use vstd::prelude::*;
use vstd::utf8::{decode_utf8, encode_utf8, encode_scalar, valid_utf8};
use vstd::slice::slice_subrange;
use crate::text::chars_of;

verus! {

broadcast use vstd::utf8::char_is_scalar;

/// An ASCII hexadecimal digit, in either case.
pub open spec fn is_hex_digit(c: char) -> bool {
    ||| ('0' <= c && c <= '9')
    ||| ('a' <= c && c <= 'f')
    ||| ('A' <= c && c <= 'F')
}

pub open spec fn hex_digit_value(c: char) -> nat {
    if '0' <= c && c <= '9' {
        (c as u32 - '0' as u32) as nat
    } else if 'a' <= c && c <= 'f' {
        (c as u32 - 'a' as u32 + 10) as nat
    } else {
        (c as u32 - 'A' as u32 + 10) as nat
    }
}

/// The number written by a sequence of hexadecimal digits.
pub open spec fn hex_digits_value(ds: Seq<char>) -> nat
    decreases ds.len(),
{
    if ds.len() == 0 {
        0
    } else {
        hex_digits_value(ds.drop_last()) * 16 + hex_digit_value(ds.last())
    }
}

pub open spec fn all_hex_digits(ds: Seq<char>) -> bool {
    forall|i: int| 0 <= i < ds.len() ==> #[trigger] is_hex_digit(ds[i])
}

/// What `u8::from_str_radix(text, 16)` returns: an optional `+` followed by
/// at least one hexadecimal digit, whose value fits in a byte.
pub open spec fn radix16_byte(text: Seq<char>) -> Option<u8> {
    let digits = if text.len() > 0 && text[0] == '+' { text.drop_first() } else { text };
    if digits.len() > 0 && all_hex_digits(digits) && hex_digits_value(digits) <= 255 {
        Some(hex_digits_value(digits) as u8)
    } else {
        None
    }
}

/// How many characters an escape that starts at the front of `cs` takes:
/// the `%` and up to two more.
pub open spec fn escape_len(cs: Seq<char>) -> int {
    if cs.len() >= 3 { 3 } else { cs.len() as int }
}

/// The bytes that URL decoding produces before they are read as UTF-8:
/// `%` with the (up to) two characters after it becomes the byte they
/// spell in hexadecimal, or stays as it was when they spell none; `+`
/// becomes a space; every other character stays, UTF-8 encoded.
pub open spec fn decoded_bytes(cs: Seq<char>) -> Seq<u8>
    decreases cs.len(),
{
    if cs.len() == 0 {
        seq![]
    } else if cs[0] == '%' {
        let n = escape_len(cs);
        let hex = cs.subrange(1, n);
        match radix16_byte(hex) {
            Some(b) => seq![b] + decoded_bytes(cs.skip(n)),
            None => seq![0x25u8] + encode_utf8(hex) + decoded_bytes(cs.skip(n)),
        }
    } else if cs[0] == '+' {
        seq![0x20u8] + decoded_bytes(cs.drop_first())
    } else {
        encode_utf8(seq![cs[0]]) + decoded_bytes(cs.drop_first())
    }
}

/// What `String::from_utf8_lossy` makes of a byte sequence.
pub uninterp spec fn utf8_lossy(bytes: Seq<u8>) -> Seq<char>;

/// The text that URL decoding gives for `s`.
/// The decoded bytes are read as UTF-8: where they are valid, exactly the
/// text they encode; otherwise what `from_utf8_lossy` makes of them.
pub open spec fn url_decoded(s: Seq<char>) -> Seq<char> {
    if valid_utf8(decoded_bytes(s)) {
        decode_utf8(decoded_bytes(s))
    } else {
        utf8_lossy(decoded_bytes(s))
    }
}

proof fn lemma_hex_value_grows(ds: Seq<char>, i: int)
    requires
        0 <= i <= ds.len(),
    ensures
        hex_digits_value(ds.take(i)) <= hex_digits_value(ds),
    decreases ds.len() - i,
{
    if i < ds.len() {
        lemma_hex_value_grows(ds, i + 1);
        assert(ds.take(i + 1).drop_last() =~= ds.take(i));
    } else {
        assert(ds.take(i) =~= ds);
    }
}

fn hex_value_of(c: char) -> (res: Option<u32>)
    ensures
        match res {
            Some(v) => is_hex_digit(c) && v == hex_digit_value(c),
            None => !is_hex_digit(c),
        },
{
    if '0' <= c && c <= '9' {
        Some(c as u32 - '0' as u32)
    } else if 'a' <= c && c <= 'f' {
        Some(c as u32 - 'a' as u32 + 10)
    } else if 'A' <= c && c <= 'F' {
        Some(c as u32 - 'A' as u32 + 10)
    } else {
        None
    }
}

/// Reads a byte written in hexadecimal the way `u8::from_str_radix(_, 16)`
/// does: an optional `+`, then at least one hexadecimal digit, the value
/// at most 255.
fn parse_hex_byte(hex: &[char]) -> (res: Option<u8>)
    ensures
        res == radix16_byte(hex@),
{
    let start: usize = if hex.len() > 0 && hex[0] == '+' { 1 } else { 0 };
    let ghost digits = if hex@.len() > 0 && hex@[0] == '+' { hex@.drop_first() } else { hex@ };
    assert(digits =~= hex@.skip(start as int));
    if start == hex.len() {
        return None;
    }
    let mut v: u32 = 0;
    let mut i: usize = start;
    assert(digits.take(0) =~= Seq::<char>::empty());
    while i < hex.len()
        invariant
            start <= i <= hex@.len(),
            start < hex@.len(),
            digits == hex@.skip(start as int),
            digits == (if hex@.len() > 0 && hex@[0] == '+' { hex@.drop_first() } else { hex@ }),
            v <= 255,
            v == hex_digits_value(digits.take(i - start)),
            all_hex_digits(digits.take(i - start)),
        decreases hex@.len() - i,
    {
        let ghost k = i - start;
        assert(digits.take(k + 1).drop_last() =~= digits.take(k));
        assert(digits[k] == hex@[i as int]);
        assert(digits.take(k + 1).last() == digits[k]);
        match hex_value_of(hex[i]) {
            Some(d) => {
                v = v * 16 + d;
                i = i + 1;
                assert(all_hex_digits(digits.take(k + 1))) by {
                    assert forall|j: int| 0 <= j < k + 1 implies #[trigger] is_hex_digit(
                        digits.take(k + 1)[j],
                    ) by {
                        if j < k {
                            assert(digits.take(k + 1)[j] == digits.take(k)[j]);
                        }
                    }
                }
                if v > 255 {
                    proof {
                        lemma_hex_value_grows(digits, k + 1);
                        assert(hex_digits_value(digits.take(k + 1)) == v);
                        assert(hex_digits_value(digits) > 255);
                        assert(radix16_byte(hex@) is None);
                    }
                    return None;
                }
            },
            None => {
                assert(!is_hex_digit(digits[k]));
                assert(!all_hex_digits(digits));
                assert(radix16_byte(hex@) is None);
                return None;
            },
        }
    }
    assert(digits.take(i - start) =~= digits);
    Some(v as u8)
}

/// `String::from_utf8_lossy`, made owned. Its result is named; where the
/// bytes are valid UTF-8 it is the text they encode, as its documentation
/// says, and a single byte that is not valid UTF-8 becomes U+FFFD. What
/// replaces invalid sequences in longer inputs is left unsaid.
#[verifier::external_body]
pub(crate) fn lossy_string(bytes: &[u8]) -> (res: String)
    ensures
        res@ == utf8_lossy(bytes@),
        valid_utf8(bytes@) ==> res@ == decode_utf8(bytes@),
        bytes@.len() == 1 && !valid_utf8(bytes@) ==> res@ == seq!['\u{FFFD}'],
{
    String::from_utf8_lossy(bytes).into_owned()
}

proof fn lemma_encode_single(c: char)
    ensures
        encode_utf8(seq![c]) == encode_scalar(c as u32),
{
    reveal_with_fuel(encode_utf8, 2);
    assert(seq![c].drop_first() =~= Seq::<char>::empty());
    assert(encode_scalar(c as u32) + Seq::<u8>::empty() =~= encode_scalar(c as u32));
}

/// Appends the UTF-8 encoding of `c`.
pub fn push_utf8(out: &mut Vec<u8>, c: char)
    ensures
        final(out)@ == old(out)@ + encode_utf8(seq![c]),
{
    proof {
        lemma_encode_single(c);
    }
    let v: u32 = c as u32;
    if v <= 0x7F {
        out.push((v & 0x7F) as u8);
    } else if v <= 0x7FF {
        out.push(0xC0 | ((v >> 6) & 0x1F) as u8);
        out.push(0x80 | (v & 0x3F) as u8);
    } else if v <= 0xFFFF {
        out.push(0xE0 | ((v >> 12) & 0x0F) as u8);
        out.push(0x80 | ((v >> 6) & 0x3F) as u8);
        out.push(0x80 | (v & 0x3F) as u8);
    } else {
        out.push(0xF0 | ((v >> 18) & 0x7) as u8);
        out.push(0x80 | ((v >> 12) & 0x3F) as u8);
        out.push(0x80 | ((v >> 6) & 0x3F) as u8);
        out.push(0x80 | (v & 0x3F) as u8);
    }
    assert(final(out)@ =~= old(out)@ + encode_scalar(c as u32));
}

proof fn lemma_encode_push(cs: Seq<char>, c: char)
    ensures
        encode_utf8(cs.push(c)) == encode_utf8(cs) + encode_utf8(seq![c]),
    decreases cs.len(),
{
    if cs.len() == 0 {
        assert(cs.push(c) =~= seq![c]);
        assert(encode_utf8(cs) =~= Seq::<u8>::empty());
        assert(Seq::<u8>::empty() + encode_utf8(seq![c]) =~= encode_utf8(seq![c]));
    } else {
        assert(cs.push(c).drop_first() =~= cs.drop_first().push(c));
        lemma_encode_push(cs.drop_first(), c);
        assert(cs.push(c)[0] == cs[0]);
    }
}

/// Appends the UTF-8 encoding of a run of characters.
pub fn push_utf8_all(out: &mut Vec<u8>, cs: &[char])
    ensures
        final(out)@ == old(out)@ + encode_utf8(cs@),
{
    let ghost start = out@;
    let mut i: usize = 0;
    while i < cs.len()
        invariant
            0 <= i <= cs@.len(),
            out@ == start + encode_utf8(cs@.take(i as int)),
        decreases cs@.len() - i,
    {
        proof {
            lemma_encode_push(cs@.take(i as int), cs@[i as int]);
            assert(cs@.take(i as int).push(cs@[i as int]) =~= cs@.take(i + 1));
        }
        push_utf8(out, cs[i]);
        i = i + 1;
    }
    assert(cs@.take(i as int) =~= cs@);
}

/// The bytes of URL decoding for a run of characters.
pub fn decode_to_bytes(cs: &[char]) -> (out: Vec<u8>)
    ensures
        out@ == decoded_bytes(cs@),
{
    let mut out: Vec<u8> = Vec::new();
    let mut i: usize = 0;
    assert(cs@.skip(0) =~= cs@);
    assert(out@ + decoded_bytes(cs@) =~= decoded_bytes(cs@));
    while i < cs.len()
        invariant
            0 <= i <= cs@.len(),
            decoded_bytes(cs@) == out@ + decoded_bytes(cs@.skip(i as int)),
        decreases cs@.len() - i,
    {
        let ghost rest = cs@.skip(i as int);
        let c = cs[i];
        if c == '%' {
            let end: usize = if cs.len() - i >= 3 { i + 3 } else { cs.len() };
            let hex = slice_subrange(cs, i + 1, end);
            proof {
                assert(escape_len(rest) == end - i);
                assert(hex@ =~= rest.subrange(1, escape_len(rest)));
                assert(rest.skip(escape_len(rest)) =~= cs@.skip(end as int));
            }
            match parse_hex_byte(hex) {
                Some(b) => {
                    out.push(b);
                }
                None => {
                    out.push(0x25u8);
                    push_utf8_all(&mut out, hex);
                }
            }
            i = end;
        } else if c == '+' {
            out.push(0x20u8);
            proof {
                assert(rest.drop_first() =~= cs@.skip(i + 1));
            }
            i = i + 1;
        } else {
            push_utf8(&mut out, c);
            proof {
                assert(rest.drop_first() =~= cs@.skip(i + 1));
            }
            i = i + 1;
        }
    }
    assert(cs@.skip(i as int) =~= Seq::<char>::empty());
    out
}

/// Text with nothing to decode: no `%` and no `+`.
pub open spec fn has_no_escapes(cs: Seq<char>) -> bool {
    forall|i: int| 0 <= i < cs.len() ==> #[trigger] cs[i] != '%' && cs[i] != '+'
}

proof fn lemma_plain_decoded_bytes(cs: Seq<char>)
    requires
        has_no_escapes(cs),
    ensures
        decoded_bytes(cs) == encode_utf8(cs),
    decreases cs.len(),
{
    if cs.len() > 0 {
        assert(cs[0] != '%' && cs[0] != '+');
        assert(has_no_escapes(cs.drop_first())) by {
            assert forall|i: int| 0 <= i < cs.drop_first().len() implies #[trigger] cs.drop_first()[i]
                != '%' && cs.drop_first()[i] != '+' by {
                assert(cs.drop_first()[i] == cs[i + 1]);
            }
        }
        lemma_plain_decoded_bytes(cs.drop_first());
        lemma_encode_single(cs[0]);
    }
}

/// Decodes a URL-encoded component (`%XX` escapes and `+` for space);
/// the resulting bytes are read as UTF-8, invalid sequences replaced.
/// Where the decoded bytes are valid UTF-8 the result is exactly their
/// text, and text with neither `%` nor `+` comes back unchanged.
pub fn url_decode(s: &str) -> (res: String)
    ensures
        res@ == url_decoded(s@),
        valid_utf8(decoded_bytes(s@)) ==> res@ == decode_utf8(decoded_bytes(s@)),
        has_no_escapes(s@) ==> res@ == s@,
{
    let cs = chars_of(s);
    proof {
        if has_no_escapes(s@) {
            lemma_plain_decoded_bytes(s@);
            vstd::utf8::encode_utf8_valid_utf8(s@);
            vstd::utf8::encode_utf8_decode_utf8(s@);
        }
    }
    url_decode_chars(cs.as_slice())
}

/// URL decoding of a run of characters.
pub fn url_decode_chars(cs: &[char]) -> (res: String)
    ensures
        res@ == url_decoded(cs@),
        valid_utf8(decoded_bytes(cs@)) ==> res@ == decode_utf8(decoded_bytes(cs@)),
{
    let bytes = decode_to_bytes(cs);
    lossy_string(bytes.as_slice())
}

} // verus!
