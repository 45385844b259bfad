//! Searching the web for the selected text: the address that asks a search engine for it.

use crate::search::{fold_utf16, folded, folded_values};
use crate::text::{encode_utf16, utf16_encode};
use vstd::prelude::*;
use vstd::utf8::{decode_utf8, encode_scalar, encode_utf8, valid_utf8};

verus! {

/// The address that a web search starts with; the query follows it.
pub open spec fn search_address_prefix() -> Seq<char> {
    "https://www.google.com/search?q="@
}

/// The UTF-8 encoding of the Unicode scalar value `v`.
pub open spec fn utf8_bytes(v: u32) -> Seq<u8> {
    if v < 0x80 {
        seq![v as u8]
    } else if v < 0x800 {
        seq![(0xC0 + v / 64) as u8, (0x80 + v % 64) as u8]
    } else if v < 0x10000 {
        seq![(0xE0 + v / 4096) as u8, (0x80 + (v / 64) % 64) as u8, (0x80 + v % 64) as u8]
    } else {
        seq![
            (0xF0 + v / 262144) as u8,
            (0x80 + (v / 4096) % 64) as u8,
            (0x80 + (v / 64) % 64) as u8,
            (0x80 + v % 64) as u8,
        ]
    }
}

/// Whether a byte may stand in a query unescaped: an ASCII letter or digit, `-`, `.`, `_`
/// or `~`.
pub open spec fn unreserved(b: u8) -> bool {
    ||| 0x30 <= b <= 0x39
    ||| 0x41 <= b <= 0x5A
    ||| 0x61 <= b <= 0x7A
    ||| b == 0x2D || b == 0x2E || b == 0x5F || b == 0x7E
}

/// The upper-case hexadecimal digit for `d < 16`, as a code unit.
pub open spec fn hex_unit(d: u8) -> u16 {
    if d < 10 { (0x30 + d) as u16 } else { (0x37 + d) as u16 }
}

/// A byte of the query as it stands in the address: itself when unreserved, else `%`
/// and two hexadecimal digits.
pub open spec fn escaped_byte(b: u8) -> Seq<u16> {
    if unreserved(b) {
        seq![b as u16]
    } else {
        seq![0x25u16, hex_unit(b / 16), hex_unit(b % 16)]
    }
}

/// Bytes of the query as they stand in the address.
pub open spec fn escaped_bytes(bytes: Seq<u8>) -> Seq<u16>
    decreases bytes.len(),
{
    if bytes.len() == 0 {
        Seq::empty()
    } else {
        escaped_bytes(bytes.drop_last()) + escaped_byte(bytes.last())
    }
}

/// Text as it stands in the address: its UTF-8 bytes, escaped.
pub open spec fn escaped_text(text: Seq<char>) -> Seq<u16>
    decreases text.len(),
{
    if text.len() == 0 {
        Seq::empty()
    } else {
        escaped_text(text.drop_last()) + escaped_bytes(utf8_bytes(text.last() as u32))
    }
}

/// The text of UTF-16 code units, an unpaired surrogate read as U+FFFD.
pub open spec fn decoded(units: Seq<u16>) -> Seq<char> {
    folded_values(folded(units, true))
}

/// The address that searches the web for `selection`.
pub open spec fn web_search_address(selection: Seq<u16>) -> Seq<u16> {
    utf16_encode(search_address_prefix()) + escaped_text(decoded(selection))
}

fn utf8_of(v: u32) -> (bytes: Vec<u8>)
    requires
        v <= 0x10FFFF,
    ensures
        bytes@ == utf8_bytes(v),
{
    if v < 0x80 {
        vec![v as u8]
    } else if v < 0x800 {
        vec![(0xC0 + v / 64) as u8, (0x80 + v % 64) as u8]
    } else if v < 0x10000 {
        vec![(0xE0 + v / 4096) as u8, (0x80 + (v / 64) % 64) as u8, (0x80 + v % 64) as u8]
    } else {
        vec![
            (0xF0 + v / 262144) as u8,
            (0x80 + (v / 4096) % 64) as u8,
            (0x80 + (v / 64) % 64) as u8,
            (0x80 + v % 64) as u8,
        ]
    }
}

fn hex_digit(d: u8) -> (unit: u16)
    requires
        d < 16,
    ensures
        unit == hex_unit(d),
{
    if d < 10 {
        (0x30 + d) as u16
    } else {
        (0x37 + d) as u16
    }
}

fn push_escaped(out: &mut Vec<u16>, b: u8)
    ensures
        final(out)@ == old(out)@ + escaped_byte(b),
{
    let keep = (0x30 <= b && b <= 0x39) || (0x41 <= b && b <= 0x5A) || (0x61 <= b && b <= 0x7A)
        || b == 0x2D || b == 0x2E || b == 0x5F || b == 0x7E;
    if keep {
        out.push(b as u16);
    } else {
        out.push(0x25);
        out.push(hex_digit(b / 16));
        out.push(hex_digit(b % 16));
    }
}

/// The address that searches the web for the selected text: the search address followed
/// by the text's UTF-8 bytes, letters, digits and `-._~` as they are and every other byte
/// as `%` and two hexadecimal digits. An unpaired surrogate is read as U+FFFD.
pub fn web_search_url(selection: &[u16]) -> (url: Vec<u16>)
    requires
        selection@.len() <= u32::MAX,
    ensures
        url@ == web_search_address(selection@),
{
    let mut url = encode_utf16("https://www.google.com/search?q=");
    let ghost prefix = url@;
    let chars = fold_utf16(selection, true);
    let ghost values = folded_values(chars@);
    let n = chars.len();
    for i in 0..n
        invariant
            n == chars@.len(),
            values == folded_values(chars@),
            url@ == prefix + escaped_text(folded_values(chars@.take(i as int))),
    {
        let ghost before = url@;
        let c = chars[i].value;
        proof {
            crate::text::lemma_char_range(c);
        }
        let bytes = utf8_of(c as u32);
        let m = bytes.len();
        for k in 0..m
            invariant
                m == bytes@.len(),
                url@ == before + escaped_bytes(bytes@.take(k as int)),
        {
            push_escaped(&mut url, bytes[k]);
            assert(bytes@.take(k + 1).drop_last() =~= bytes@.take(k as int));
            assert(url@ =~= before + escaped_bytes(bytes@.take(k + 1)));
        }
        assert(bytes@.take(m as int) =~= bytes@);
        let ghost taken = folded_values(chars@.take(i + 1));
        assert(taken.drop_last() =~= folded_values(chars@.take(i as int)));
        assert(taken.last() == c);
        assert(url@ =~= prefix + escaped_text(taken));
    }
    assert(chars@.take(n as int) =~= chars@);
    url
}

/// The bytes that stand for a character in the query are its standard UTF-8 encoding.
pub proof fn lemma_query_bytes_are_utf8(c: char)
    ensures
        utf8_bytes(c as u32) == encode_scalar(c as u32),
        utf8_bytes(c as u32) == encode_utf8(seq![c]),
        valid_utf8(utf8_bytes(c as u32)),
        decode_utf8(utf8_bytes(c as u32)) == seq![c],
{
    let v = c as u32;
    crate::text::lemma_char_range(c);
    if v < 0x80 {
        assert((v as u8) == ((v & 0x7F) as u8)) by (bit_vector)
            requires
                v < 0x80,
        ;
    } else if v < 0x800 {
        assert((0xC0 + v / 64) as u8 == (0xC0 | ((v >> 6) & 0x1F) as u8)) by (bit_vector)
            requires
                0x80 <= v < 0x800,
        ;
        assert((0x80 + v % 64) as u8 == (0x80 | (v & 0x3F) as u8)) by (bit_vector);
    } else if v < 0x10000 {
        assert((0xE0 + v / 4096) as u8 == (0xE0 | ((v >> 12) & 0x0F) as u8)) by (bit_vector)
            requires
                0x800 <= v < 0x10000,
        ;
        assert((0x80 + (v / 64) % 64) as u8 == (0x80 | ((v >> 6) & 0x3F) as u8)) by (bit_vector);
        assert((0x80 + v % 64) as u8 == (0x80 | (v & 0x3F) as u8)) by (bit_vector);
    } else {
        assert((0xF0 + v / 262144) as u8 == (0xF0 | ((v >> 18) & 0x7) as u8)) by (bit_vector)
            requires
                0x10000 <= v <= 0x10FFFF,
        ;
        assert((0x80 + (v / 4096) % 64) as u8 == (0x80 | ((v >> 12) & 0x3F) as u8)) by (bit_vector);
        assert((0x80 + (v / 64) % 64) as u8 == (0x80 | ((v >> 6) & 0x3F) as u8)) by (bit_vector);
        assert((0x80 + v % 64) as u8 == (0x80 | (v & 0x3F) as u8)) by (bit_vector);
    }
    assert(encode_utf8(seq![c]) =~= encode_scalar(v) + encode_utf8(seq![c].drop_first()));
    assert(encode_utf8(seq![c]) =~= encode_scalar(v));
    vstd::utf8::encode_utf8_valid_utf8(seq![c]);
    vstd::utf8::encode_utf8_decode_utf8(seq![c]);
}

proof fn lemma_escaped_bytes_concat(a: Seq<u8>, b: Seq<u8>)
    ensures
        escaped_bytes(a + b) == escaped_bytes(a) + escaped_bytes(b),
    decreases b.len(),
{
    if b.len() == 0 {
        assert(a + b =~= a);
        assert(escaped_bytes(a) + escaped_bytes(b) =~= escaped_bytes(a));
    } else {
        lemma_escaped_bytes_concat(a, b.drop_last());
        assert((a + b).drop_last() =~= a + b.drop_last());
        assert(escaped_bytes(a) + escaped_bytes(b.drop_last()) + escaped_byte(b.last()) =~= escaped_bytes(a)
            + (escaped_bytes(b.drop_last()) + escaped_byte(b.last())));
    }
}

proof fn lemma_encode_utf8_push(text: Seq<char>, c: char)
    ensures
        encode_utf8(text.push(c)) == encode_utf8(text) + encode_scalar(c as u32),
    decreases text.len(),
{
    if text.len() == 0 {
        assert(seq![c].drop_first() =~= Seq::<char>::empty());
        assert(text.push(c) =~= seq![c]);
        assert(encode_utf8(seq![c]) =~= encode_scalar(c as u32) + encode_utf8(Seq::<char>::empty()));
        assert(encode_utf8(text) + encode_scalar(c as u32) =~= encode_scalar(c as u32));
    } else {
        lemma_encode_utf8_push(text.drop_first(), c);
        assert(text.push(c).drop_first() =~= text.drop_first().push(c));
        assert(text.push(c)[0] == text[0]);
        assert(encode_scalar(text[0] as u32) + (encode_utf8(text.drop_first()) + encode_scalar(c as u32))
            =~= encode_scalar(text[0] as u32) + encode_utf8(text.drop_first()) + encode_scalar(c as u32));
    }
}

/// The query is the standard UTF-8 encoding of the text, each byte escaped on its own.
pub proof fn lemma_query_is_escaped_utf8(text: Seq<char>)
    ensures
        escaped_text(text) == escaped_bytes(encode_utf8(text)),
    decreases text.len(),
{
    if text.len() == 0 {
        assert(encode_utf8(text) =~= Seq::<u8>::empty());
    } else {
        let rest = text.drop_last();
        let c = text.last();
        lemma_query_is_escaped_utf8(rest);
        lemma_query_bytes_are_utf8(c);
        assert(rest.push(c) =~= text);
        lemma_encode_utf8_push(rest, c);
        lemma_escaped_bytes_concat(encode_utf8(rest), encode_scalar(c as u32));
    }
}

/// The value of an upper-case hexadecimal digit.
pub open spec fn hex_value(u: u16) -> int {
    if 0x30 <= u <= 0x39 { u - 0x30 } else { u - 0x37 }
}

/// Every byte of the query can be read back: an ASCII letter or digit, `-`, `.`, `_` or `~`
/// stands for itself, any other byte is `%` and two upper-case hexadecimal digits whose
/// value is the byte.
pub proof fn lemma_escaped_byte_reads_back(b: u8)
    ensures
        (0x30 <= b <= 0x39 || 0x41 <= b <= 0x5A || 0x61 <= b <= 0x7A || b == 0x2D || b == 0x2E || b
            == 0x5F || b == 0x7E) ==> escaped_byte(b) == seq![b as u16],
        !(0x30 <= b <= 0x39 || 0x41 <= b <= 0x5A || 0x61 <= b <= 0x7A || b == 0x2D || b == 0x2E || b
            == 0x5F || b == 0x7E) ==> escaped_byte(b).len() == 3 && escaped_byte(b)[0] == 0x25
            && (0x30 <= escaped_byte(b)[1] <= 0x39 || 0x41 <= escaped_byte(b)[1] <= 0x46)
            && (0x30 <= escaped_byte(b)[2] <= 0x39 || 0x41 <= escaped_byte(b)[2] <= 0x46)
            && hex_value(escaped_byte(b)[1]) * 16 + hex_value(escaped_byte(b)[2]) == b,
{
}

/// The search address is the search prefix followed by the selection's text in standard
/// UTF-8, each byte escaped.
pub proof fn lemma_search_address_is_escaped_utf8(selection: Seq<u16>)
    ensures
        web_search_address(selection) == utf16_encode(search_address_prefix()) + escaped_bytes(
            encode_utf8(decoded(selection)),
        ),
{
    lemma_query_is_escaped_utf8(decoded(selection));
}

} // verus!
