//! Text primitives shared by the parser, the layout text model and the search:
//! UTF-16 encoding and decoding, Unicode white space, trimming, decimal numbers.

use vstd::prelude::*;

verus! {

// ---------------------------------------------------------------------------
// UTF-16
// ---------------------------------------------------------------------------

/// The UTF-16 code units that encode `c`.
pub open spec fn utf16_units(c: char) -> Seq<u16> {
    let v = c as u32;
    if v < 0x10000 {
        seq![v as u16]
    } else {
        let u = (v - 0x10000) as u32;
        seq![(0xD800 + (u >> 10u32)) as u16, (0xDC00 + (u & 0x3FFu32)) as u16]
    }
}

/// The UTF-16 encoding of a character sequence.
pub open spec fn utf16_encode(s: Seq<char>) -> Seq<u16>
    decreases s.len(),
{
    if s.len() == 0 {
        Seq::empty()
    } else {
        utf16_encode(s.drop_last()) + utf16_units(s.last())
    }
}

/// Number of UTF-16 code units that encode `c`.
pub open spec fn utf16_width(c: char) -> nat {
    if (c as u32) < 0x10000 {
        1
    } else {
        2
    }
}

/// Number of UTF-16 code units that encode `s`.
pub open spec fn utf16_count(s: Seq<char>) -> nat
    decreases s.len(),
{
    if s.len() == 0 {
        0
    } else {
        utf16_count(s.drop_last()) + utf16_width(s.last())
    }
}

/// `n` reduced to 32 bits, as `as u32` does.
pub open spec fn low32(n: int) -> u32 {
    (n % 0x1_0000_0000) as u32
}

/// The UTF-16 length of `s`, reduced to 32 bits.
pub open spec fn utf16_len32(s: Seq<char>) -> u32 {
    low32(utf16_count(s) as int)
}

/// The number of code units of an encoding is its UTF-16 count.
proof fn lemma_utf16_encode_len(s: Seq<char>)
    ensures
        utf16_encode(s).len() == utf16_count(s),
    decreases s.len(),
{
    if s.len() > 0 {
        lemma_utf16_encode_len(s.drop_last());
    }
}

/// Encoding distributes over concatenation.
pub(crate) proof fn lemma_utf16_encode_concat(a: Seq<char>, b: Seq<char>)
    ensures
        utf16_encode(a + b) == utf16_encode(a) + utf16_encode(b),
    decreases b.len(),
{
    if b.len() == 0 {
        assert(a + b =~= a);
        assert(utf16_encode(a) + utf16_encode(b) =~= utf16_encode(a));
    } else {
        lemma_utf16_encode_concat(a, b.drop_last());
        assert((a + b).drop_last() =~= a + b.drop_last());
        assert(utf16_encode(a) + utf16_encode(b.drop_last()) + utf16_units(b.last())
            =~= utf16_encode(a) + (utf16_encode(b.drop_last()) + utf16_units(b.last())));
    }
}

/// Counting distributes over concatenation.
pub(crate) proof fn lemma_utf16_count_concat(a: Seq<char>, b: Seq<char>)
    ensures
        utf16_count(a + b) == utf16_count(a) + utf16_count(b),
{
    lemma_utf16_encode_concat(a, b);
    lemma_utf16_encode_len(a);
    lemma_utf16_encode_len(b);
    lemma_utf16_encode_len(a + b);
}

/// A `char` holds a Unicode scalar value.
pub(crate) proof fn lemma_char_range(c: char)
    ensures
        c as u32 == c as int,
        c as int <= 0x10FFFF,
        !(0xD800 <= c as int <= 0xDFFF),
{
}

/// The UTF-16 length of `value`, reduced to 32 bits.
pub fn utf16_len(value: &str) -> (n: u32)
    ensures
        n == utf16_len32(value@),
{
    let mut n: u32 = 0;
    for c in it: value.chars()
        invariant
            it.seq() == value@,
            n == low32(utf16_count(it.seq().take(it.index() as int)) as int),
    {
        assert(it.seq().take(it.index() + 1).drop_last() =~= it.seq().take(it.index() as int));
        let w: u32 = if (c as u32) < 0x10000 {
            1
        } else {
            2
        };
        n = n.wrapping_add(w);
    }
    assert(value@.take(value@.len() as int) =~= value@);
    n
}

/// Appends the UTF-16 encoding of `value` to `out`.
pub fn push_utf16(out: &mut Vec<u16>, value: &str)
    ensures
        final(out)@ == old(out)@ + utf16_encode(value@),
{
    let ghost start = out@;
    for c in it: value.chars()
        invariant
            it.seq() == value@,
            out@ == start + utf16_encode(it.seq().take(it.index() as int)),
    {
        let ghost prefix = it.seq().take(it.index() as int);
        assert(it.seq().take(it.index() + 1).drop_last() =~= prefix);
        let v = c as u32;
        if v < 0x10000 {
            out.push(v as u16);
        } else {
            let u: u32 = v - 0x10000;
            proof { lemma_char_range(c); }
            assert(u < 0x100000 ==> (u >> 10u32) < 0x400) by (bit_vector);
            assert((u & 0x3FFu32) < 0x400) by (bit_vector);
            out.push((0xD800 + (u >> 10u32)) as u16);
            out.push((0xDC00 + (u & 0x3FFu32)) as u16);
        }
        assert(out@ =~= start + utf16_encode(it.seq().take(it.index() + 1)));
    }
    assert(value@.take(value@.len() as int) =~= value@);
}

/// The UTF-16 encoding of `value`.
pub fn encode_utf16(value: &str) -> (units: Vec<u16>)
    ensures
        units@ == utf16_encode(value@),
{
    let mut units: Vec<u16> = Vec::new();
    push_utf16(&mut units, value);
    assert(units@ =~= utf16_encode(value@));
    units
}

/// `value` encoded as UTF-16 and terminated by a zero unit, as Win32 calls take it.
pub fn wide_null(value: &str) -> (units: Vec<u16>)
    ensures
        units@ == utf16_encode(value@).push(0u16),
{
    let mut units = encode_utf16(value);
    units.push(0);
    units
}

/// The characters of `value`, in order.
pub fn chars_of(value: &str) -> (chars: Vec<char>)
    ensures
        chars@ == value@,
{
    let mut chars: Vec<char> = Vec::new();
    for c in it: value.chars()
        invariant
            it.seq() == value@,
            chars@ == it.seq().take(it.index() as int),
    {
        chars.push(c);
        assert(chars@ =~= it.seq().take(it.index() + 1));
    }
    assert(value@.take(value@.len() as int) =~= value@);
    chars
}

// ---------------------------------------------------------------------------
// White space and trimming
// ---------------------------------------------------------------------------

/// Whether `c` has the Unicode `White_Space` property (what `char::is_whitespace` reports).
pub uninterp spec fn is_white_space(c: char) -> bool;

/// Calls `char::is_whitespace`. Its documentation defines the result as the Unicode
/// `White_Space` property, named here `is_white_space`, and shows that a space, a line
/// feed and a no-break space have it; the full table of the property is not restated.
#[verifier::external_body]
pub(crate) fn is_whitespace(c: char) -> (b: bool)
    ensures
        b == is_white_space(c),
        (c == ' ' || c == '\n' || c == '\u{A0}') ==> b,
{
    c.is_whitespace()
}

/// `s` without its leading white space.
pub open spec fn trim_start_spec(s: Seq<char>) -> Seq<char>
    decreases s.len(),
{
    if s.len() > 0 && is_white_space(s[0]) {
        trim_start_spec(s.drop_first())
    } else {
        s
    }
}

/// `s` without its trailing white space.
pub open spec fn trim_end_spec(s: Seq<char>) -> Seq<char>
    decreases s.len(),
{
    if s.len() > 0 && is_white_space(s.last()) {
        trim_end_spec(s.drop_last())
    } else {
        s
    }
}

/// `s` without leading and trailing white space.
pub open spec fn trim_spec(s: Seq<char>) -> Seq<char> {
    trim_end_spec(trim_start_spec(s))
}

/// Calls `str::trim`, which its documentation describes as removing leading and trailing
/// characters with the `White_Space` property; the contract says so over `is_white_space`.
#[verifier::external_body]
pub(crate) fn trim(s: &str) -> (r: &str)
    ensures
        r@ == trim_spec(s@),
{
    s.trim()
}

// ---------------------------------------------------------------------------
// Decimal numbers
// ---------------------------------------------------------------------------

/// The ASCII digit for `d < 10`.
pub open spec fn digit_char(d: nat) -> char {
    ((48 + d) as u32) as char
}

/// The decimal representation of `n`, without sign or leading zeros.
pub open spec fn decimal_spec(n: nat) -> Seq<char>
    decreases n,
{
    if n < 10 {
        seq![digit_char(n)]
    } else {
        decimal_spec(n / 10).push(digit_char(n % 10))
    }
}

/// The number that a string of ASCII digits denotes, read in base 10.
pub open spec fn decimal_value(s: Seq<char>) -> int
    decreases s.len(),
{
    if s.len() == 0 {
        0
    } else {
        decimal_value(s.drop_last()) * 10 + (s.last() as int - 48)
    }
}

/// The decimal text of a number is made of ASCII digits, reads back as the number, and
/// starts with `0` only for zero itself.
pub proof fn lemma_decimal_reads_back(n: nat)
    ensures
        forall|i: int| 0 <= i < decimal_spec(n).len() ==> '0' <= #[trigger] decimal_spec(n)[i] <= '9',
        decimal_value(decimal_spec(n)) == n,
        decimal_spec(n)[0] == '0' <==> n == 0,
    decreases n,
{
    if n >= 10 {
        lemma_decimal_reads_back(n / 10);
        let s = decimal_spec(n);
        assert(s.drop_last() =~= decimal_spec(n / 10));
        assert(decimal_spec(n / 10).len() >= 1);
        assert(digit_char(n % 10) as int == 48 + n % 10);
        assert(s.last() == digit_char(n % 10));
        assert(decimal_value(s) == decimal_value(decimal_spec(n / 10)) * 10 + (n % 10));
    } else {
        assert(digit_char(n) as int == 48 + n);
        let s = decimal_spec(n);
        assert(s.drop_last() =~= Seq::<char>::empty());
        assert(decimal_value(s) == decimal_value(Seq::<char>::empty()) * 10 + n);
    }
}

/// The one-character text of the digit `d`.
fn digit_text(d: u64) -> (s: &'static str)
    requires
        d < 10,
    ensures
        s@ == seq![digit_char(d as nat)],
{
    proof {
        reveal_strlit("0");
        reveal_strlit("1");
        reveal_strlit("2");
        reveal_strlit("3");
        reveal_strlit("4");
        reveal_strlit("5");
        reveal_strlit("6");
        reveal_strlit("7");
        reveal_strlit("8");
        reveal_strlit("9");
    }
    if d == 0 {
        "0"
    } else if d == 1 {
        "1"
    } else if d == 2 {
        "2"
    } else if d == 3 {
        "3"
    } else if d == 4 {
        "4"
    } else if d == 5 {
        "5"
    } else if d == 6 {
        "6"
    } else if d == 7 {
        "7"
    } else if d == 8 {
        "8"
    } else {
        "9"
    }
}

/// The decimal representation of `n`, without sign or leading zeros.
pub fn decimal_string(n: u64) -> (s: String)
    ensures
        s@ == decimal_spec(n as nat),
    decreases n,
{
    if n < 10 {
        digit_text(n).to_owned()
    } else {
        let mut s = decimal_string(n / 10);
        s.append(digit_text(n % 10));
        s
    }
}

// ---------------------------------------------------------------------------
// Joining
// ---------------------------------------------------------------------------

/// The elements of `parts` with `separator` between neighbours.
pub open spec fn join_spec(parts: Seq<Seq<char>>, separator: Seq<char>) -> Seq<char>
    decreases parts.len(),
{
    if parts.len() == 0 {
        Seq::empty()
    } else if parts.len() == 1 {
        parts[0]
    } else {
        join_spec(parts.drop_last(), separator) + separator + parts.last()
    }
}

/// The views of a list of strings.
pub open spec fn string_views(parts: Seq<String>) -> Seq<Seq<char>> {
    parts.map_values(|p: String| p@)
}

/// Appends the elements of `parts`, separated by `separator`, to `out`.
pub fn append_joined(out: &mut String, parts: &Vec<String>, separator: &str)
    ensures
        final(out)@ == old(out)@ + join_spec(string_views(parts@), separator@),
{
    let ghost start = out@;
    let ghost views = string_views(parts@);
    let n = parts.len();
    for i in 0..n
        invariant
            n == parts@.len(),
            views == string_views(parts@),
            out@ == start + join_spec(views.take(i as int), separator@),
    {
        assert(views.take(i + 1).drop_last() =~= views.take(i as int));
        if i > 0 {
            out.append(separator);
        }
        out.append(parts[i].as_str());
        assert(out@ =~= start + join_spec(views.take(i + 1), separator@));
    }
    assert(views.take(n as int) =~= views);
}

// ---------------------------------------------------------------------------
// Bounds on UTF-16 lengths
// ---------------------------------------------------------------------------

/// A text takes at most two code units per character.
pub(crate) proof fn lemma_count_bound(s: Seq<char>)
    ensures
        utf16_count(s) <= 2 * s.len(),
    decreases s.len(),
{
    if s.len() > 0 {
        lemma_count_bound(s.drop_last());
    }
}

proof fn lemma_count_drop_first(s: Seq<char>)
    requires
        s.len() > 0,
    ensures
        utf16_count(s.drop_first()) <= utf16_count(s),
{
    assert(s =~= seq![s[0]] + s.drop_first());
    lemma_utf16_count_concat(seq![s[0]], s.drop_first());
}

/// Trimming never lengthens a text.
pub(crate) proof fn lemma_trim_count(s: Seq<char>)
    ensures
        utf16_count(trim_spec(s)) <= utf16_count(s),
{
    lemma_trim_start_count(s);
    lemma_trim_end_count(trim_start_spec(s));
}

proof fn lemma_trim_start_count(s: Seq<char>)
    ensures
        utf16_count(trim_start_spec(s)) <= utf16_count(s),
    decreases s.len(),
{
    if s.len() > 0 && is_white_space(s[0]) {
        lemma_count_drop_first(s);
        lemma_trim_start_count(s.drop_first());
    }
}

proof fn lemma_trim_end_count(s: Seq<char>)
    ensures
        utf16_count(trim_end_spec(s)) <= utf16_count(s),
    decreases s.len(),
{
    if s.len() > 0 && is_white_space(s.last()) {
        lemma_trim_end_count(s.drop_last());
    }
}

/// `10` to the power `k`.
pub open spec fn pow10(k: nat) -> nat
    decreases k,
{
    if k == 0 { 1 } else { 10 * pow10((k - 1) as nat) }
}

proof fn lemma_decimal_len_below(n: nat, k: nat)
    requires
        k >= 1,
        n < pow10(k),
    ensures
        decimal_spec(n).len() <= k,
    decreases k,
{
    if n >= 10 {
        assert(k >= 2) by {
            if k == 1 {
                assert(pow10(1) == 10 * pow10(0));
            }
        }
        let m = (k - 1) as nat;
        assert(pow10(k) == 10 * pow10(m));
        assert(n / 10 < pow10(m)) by (nonlinear_arith)
            requires
                n < 10 * pow10(m),
        ;
        lemma_decimal_len_below(n / 10, m);
    }
}

/// A 64-bit number has at most 20 decimal digits.
pub(crate) proof fn lemma_decimal_len(n: u64)
    ensures
        decimal_spec(n as nat).len() <= 20,
{
    reveal_with_fuel(pow10, 21);
    assert(pow10(20) == 100000000000000000000);
    lemma_decimal_len_below(n as nat, 20);
}

} // verus!
