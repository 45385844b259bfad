//! Find-in-document over UTF-16 text: optional case folding, whole-word matching, and
//! search that wraps around in either direction.

use crate::sentence::char_from_u32;
use crate::text::{lemma_char_range, utf16_units};
use vstd::prelude::*;

verus! {

// ---------------------------------------------------------------------------
// UTF-16 decoding
// ---------------------------------------------------------------------------

/// Whether a code unit is a leading surrogate.
pub open spec fn is_high_surrogate(u: u16) -> bool {
    0xD800 <= u <= 0xDBFF
}

/// Whether a code unit is a trailing surrogate.
pub open spec fn is_low_surrogate(u: u16) -> bool {
    0xDC00 <= u <= 0xDFFF
}

/// How many code units the character at `i` takes: two for a surrogate pair, else one.
pub open spec fn unit_width(t: Seq<u16>, i: int) -> int {
    if is_high_surrogate(t[i]) && i + 1 < t.len() && is_low_surrogate(t[i + 1]) {
        2
    } else {
        1
    }
}

/// The scalar value decoded at `i`; an unpaired surrogate decodes to U+FFFD.
pub open spec fn unit_value(t: Seq<u16>, i: int) -> u32 {
    if unit_width(t, i) == 2 {
        (0x10000 + (t[i] - 0xD800) * 0x400 + (t[i + 1] - 0xDC00)) as u32
    } else if 0xD800 <= t[i] <= 0xDFFF {
        0xFFFD
    } else {
        t[i] as u32
    }
}

/// The full lowercase mapping of `c` (what `char::to_lowercase` yields).
pub uninterp spec fn lowercase_of(c: char) -> Seq<char>;

/// Calls `char::to_lowercase` and collects what it yields; its documentation promises one or
/// more characters, the full lowercase mapping named here `lowercase_of`.
#[verifier::external_body]
pub(crate) fn to_lowercase(c: char) -> (lower: Vec<char>)
    ensures
        lower@ == lowercase_of(c),
        lower@.len() >= 1,
{
    c.to_lowercase().collect()
}

/// Whether `c` is alphabetic or numeric (what `char::is_alphanumeric` reports).
pub uninterp spec fn is_alphanumeric_char(c: char) -> bool;

/// Calls `char::is_alphanumeric`: the Unicode `Alphabetic` property or a numeric general
/// category, named here `is_alphanumeric_char`; the Unicode tables are not restated.
#[verifier::external_body]
pub(crate) fn is_alphanumeric(c: char) -> (b: bool)
    ensures
        b == is_alphanumeric_char(c),
{
    c.is_alphanumeric()
}

/// A character of folded text with the range of code units that it came from.
#[derive(Clone, Copy, Debug, PartialEq, Eq, Structural)]
pub struct FoldedChar {
    pub value: char,
    pub start: u32,
    pub end: u32,
}

/// The folded characters for the character decoded at `i`: the character itself, or with
/// case folding its lowercase mapping, each with the code-unit range of the source.
pub open spec fn folded_at(t: Seq<u16>, i: int, match_case: bool) -> Seq<FoldedChar> {
    let c = unit_value(t, i) as char;
    let start = i as u32;
    let end = (i + unit_width(t, i)) as u32;
    if match_case {
        seq![FoldedChar { value: c, start, end }]
    } else {
        with_range(lowercase_of(c), start, end)
    }
}

/// Each of `chars` with the source range `start..end`.
pub open spec fn with_range(chars: Seq<char>, start: u32, end: u32) -> Seq<FoldedChar>
    decreases chars.len(),
{
    if chars.len() == 0 {
        Seq::empty()
    } else {
        with_range(chars.drop_last(), start, end).push(FoldedChar { value: chars.last(), start, end })
    }
}

proof fn lemma_with_range_push(chars: Seq<char>, c: char, start: u32, end: u32)
    ensures
        with_range(chars.push(c), start, end) == with_range(chars, start, end).push(
            FoldedChar { value: c, start, end },
        ),
{
    assert(chars.push(c).drop_last() =~= chars);
}

/// The folded characters of `t` from code unit `i` on.
pub open spec fn folded_from(t: Seq<u16>, i: int, match_case: bool) -> Seq<FoldedChar>
    decreases t.len() - i,
{
    if i < 0 || i >= t.len() {
        Seq::empty()
    } else {
        folded_at(t, i, match_case) + folded_from(t, i + unit_width(t, i), match_case)
    }
}

/// The folded characters of `t`.
pub open spec fn folded(t: Seq<u16>, match_case: bool) -> Seq<FoldedChar> {
    folded_from(t, 0, match_case)
}

/// The characters of folded text.
pub open spec fn folded_values(f: Seq<FoldedChar>) -> Seq<char> {
    f.map_values(|x: FoldedChar| x.value)
}

/// Decodes UTF-16 text (unpaired surrogates become U+FFFD) and, unless `match_case`, maps
/// every character to its lowercase form; each result keeps its source range.
pub fn fold_utf16(value: &[u16], match_case: bool) -> (result: Vec<FoldedChar>)
    requires
        value@.len() <= u32::MAX,
    ensures
        result@ == folded(value@, match_case),
{
    let ghost t = value@;
    let mut result: Vec<FoldedChar> = Vec::with_capacity(value.len());
    let mut offset: usize = 0;
    while offset < value.len()
        invariant
            t == value@,
            t.len() <= u32::MAX,
            offset <= t.len(),
            result@ + folded_from(t, offset as int, match_case) == folded(t, match_case),
        decreases t.len() - offset,
    {
        let unit = value[offset];
        let paired = 0xD800 <= unit && unit <= 0xDBFF && offset + 1 < value.len()
            && 0xDC00 <= value[offset + 1] && value[offset + 1] <= 0xDFFF;
        let length: usize = if paired {
            2
        } else {
            1
        };
        let scalar: u32 = if paired {
            0x10000 + (unit as u32 - 0xD800) * 0x400 + (value[offset + 1] as u32 - 0xDC00)
        } else if 0xD800 <= unit && unit <= 0xDFFF {
            0xFFFD
        } else {
            unit as u32
        };
        assert(scalar == unit_value(t, offset as int));
        let character = match char_from_u32(scalar) {
            Some(c) => c,
            None => {
                assert(false);
                '\u{FFFD}'
            },
        };
        let start = offset as u32;
        let end = (offset + length) as u32;
        let ghost before = result@;
        let ghost chunk = folded_at(t, offset as int, match_case);
        if match_case {
            result.push(FoldedChar { value: character, start, end });
            assert(result@ =~= before + chunk);
        } else {
            let lower = to_lowercase(character);
            assert(chunk == with_range(lower@, start, end));
            let mut k: usize = 0;
            while k < lower.len()
                invariant
                    k <= lower@.len(),
                    lower@ == lowercase_of(character),
                    !match_case,
                    chunk == folded_at(t, offset as int, match_case),
                    character == unit_value(t, offset as int) as char,
                    start == offset as u32,
                    end == (offset + unit_width(t, offset as int)) as u32,
                    result@ == before + with_range(lower@.take(k as int), start, end),
                decreases lower@.len() - k,
            {
                let item = FoldedChar { value: lower[k], start, end };
                proof {
                    let prefix = lower@.take(k as int);
                    let x = lower@[k as int];
                    crate::text::lemma_char_range(x);
                    lemma_with_range_push(prefix, x, start, end);
                    assert(prefix.push(x) =~= lower@.take(k + 1));
                }
                result.push(item);
                assert(result@ =~= before + with_range(lower@.take(k + 1), start, end));
                k += 1;
            }
            assert(lower@.take(k as int) =~= lower@);
        }
        assert(folded_from(t, offset as int, match_case) == chunk + folded_from(
            t,
            offset + length,
            match_case,
        ));
        assert(result@ + folded_from(t, (offset + length) as int, match_case) =~= before + (chunk
            + folded_from(t, (offset + length) as int, match_case)));
        offset = offset + length;
    }
    assert(result@ =~= folded(t, match_case));
    result
}

// ---------------------------------------------------------------------------
// Matching
// ---------------------------------------------------------------------------

/// Whether `c` counts as part of a word: alphanumeric or `_`.
pub open spec fn is_word_char(c: char) -> bool {
    is_alphanumeric_char(c) || c == '_'
}

/// Whether the folded query `q` occurs in the folded text `t` at index `i`; with
/// `whole_word`, the occurrence must not be next to a word character.
pub open spec fn matches_at(t: Seq<FoldedChar>, q: Seq<char>, i: int, whole_word: bool) -> bool {
    &&& 0 <= i
    &&& i + q.len() <= t.len()
    &&& forall|k: int| 0 <= k < q.len() ==> #[trigger] t[i + k].value == q[k]
    &&& whole_word ==> (i == 0 || !is_word_char(t[i - 1].value))
    &&& whole_word ==> (i + q.len() == t.len() || !is_word_char(t[i + q.len()].value))
}

/// The code-unit range of the occurrence at index `i`.
pub open spec fn range_at(t: Seq<FoldedChar>, q: Seq<char>, i: int) -> (u32, u32) {
    (t[i].start, t[i + q.len() - 1].end)
}

/// The result of a forward search: the first occurrence that starts at or after `start`,
/// or else (wrapping around) the first occurrence of all.
pub open spec fn forward_result(t: Seq<FoldedChar>, q: Seq<char>, whole_word: bool, start: u32, r: (u32, u32)) -> bool {
    exists|i: int|
        #![trigger range_at(t, q, i)]
        matches_at(t, q, i, whole_word) && r == range_at(t, q, i) && ((range_at(t, q, i).0 >= start
            && forall|j: int|
            0 <= j < i && matches_at(t, q, j, whole_word) ==> #[trigger] range_at(t, q, j).0 < start)
            || ((forall|j: int| #[trigger]
            matches_at(t, q, j, whole_word) ==> range_at(t, q, j).0 < start) && forall|j: int|
            0 <= j < i ==> !#[trigger] matches_at(t, q, j, whole_word)))
}

/// The result of a backward search: the last occurrence that ends at or before `start`, or
/// else (wrapping around) the last occurrence of all.
pub open spec fn backward_result(t: Seq<FoldedChar>, q: Seq<char>, whole_word: bool, start: u32, r: (u32, u32)) -> bool {
    exists|i: int|
        #![trigger range_at(t, q, i)]
        matches_at(t, q, i, whole_word) && r == range_at(t, q, i) && ((range_at(t, q, i).1 <= start
            && forall|j: int|
            i < j && matches_at(t, q, j, whole_word) ==> #[trigger] range_at(t, q, j).1 > start)
            || ((forall|j: int| #[trigger]
            matches_at(t, q, j, whole_word) ==> range_at(t, q, j).1 > start) && forall|j: int|
            i < j ==> !#[trigger] matches_at(t, q, j, whole_word)))
}

/// Whether the folded query occurs anywhere in the folded text.
pub open spec fn has_match(t: Seq<FoldedChar>, q: Seq<char>, whole_word: bool) -> bool {
    exists|i: int| #[trigger] matches_at(t, q, i, whole_word)
}

/// What a search returns: `None` exactly when the query is empty or does not occur;
/// otherwise the occurrence that a forward or backward search from `start` reaches first,
/// wrapping around the end of the text.
pub open spec fn search_outcome(
    text: Seq<u16>,
    query: Seq<u16>,
    start: u32,
    forward: bool,
    match_case: bool,
    whole_word: bool,
    r: Option<(u32, u32)>,
) -> bool {
    let t = folded(text, match_case);
    let q = folded_values(folded(query, match_case));
    &&& r is None <==> (query.len() == 0 || q.len() == 0 || !has_match(t, q, whole_word))
    &&& r matches Some(range) ==> if forward {
        forward_result(t, q, whole_word, start, range)
    } else {
        backward_result(t, q, whole_word, start, range)
    }
}

fn matches_here(text: &Vec<FoldedChar>, query: &Vec<char>, index: usize, whole_word: bool) -> (b: bool)
    requires
        index + query@.len() <= text@.len(),
    ensures
        b == matches_at(text@, query@, index as int, whole_word),
{
    let n = query.len();
    let text_len = text.len();
    for k in 0..n
        invariant
            n == query@.len(),
            text_len == text@.len(),
            index + n <= text@.len(),
            forall|j: int| 0 <= j < k ==> #[trigger] text@[index + j].value == query@[j],
    {
        if text[index + k].value != query[k] {
            assert(text@[index + k as int].value != query@[k as int]);
            return false;
        }
    }
    if whole_word {
        if index > 0 && (is_alphanumeric(text[index - 1].value) || text[index - 1].value == '_') {
            return false;
        }
        if index + n < text.len() && (is_alphanumeric(text[index + n].value) || text[index
            + n].value == '_') {
            return false;
        }
    }
    true
}

/// Finds `query` in `text` from the code unit `start` on, in either direction, wrapping
/// around the end of the text. Without `match_case` both are compared in lowercase; with
/// `whole_word` an occurrence must not touch a letter, digit or `_`. Returns the code-unit
/// range of the occurrence, or `None` when the query is empty or does not occur.
pub fn find_utf16(
    text: &[u16],
    query: &[u16],
    start: u32,
    forward: bool,
    match_case: bool,
    whole_word: bool,
) -> (r: Option<(u32, u32)>)
    requires
        text@.len() <= u32::MAX,
        query@.len() <= u32::MAX,
    ensures
        search_outcome(text@, query@, start, forward, match_case, whole_word, r),
{
    if query.len() == 0 {
        return None;
    }
    let folded_text = fold_utf16(text, match_case);
    let folded_query = fold_utf16(query, match_case);
    let mut needle: Vec<char> = Vec::with_capacity(folded_query.len());
    for k in 0..folded_query.len()
        invariant
            needle@ == folded_values(folded_query@.take(k as int)),
    {
        needle.push(folded_query[k].value);
        assert(needle@ =~= folded_values(folded_query@.take(k + 1)));
    }
    assert(folded_query@.take(folded_query@.len() as int) =~= folded_query@);
    let ghost t = folded_text@;
    let ghost q = needle@;
    assert(q == folded_values(folded(query@, match_case)));
    if needle.len() == 0 || needle.len() > folded_text.len() {
        assert(!has_match(t, q, whole_word) || q.len() == 0);
        return None;
    }
    let text_len = folded_text.len();
    let last = text_len - needle.len();
    if forward {
        let mut wrapped: Option<(u32, u32)> = None;
        let ghost mut first: int = 0;
        for index in 0..last + 1
            invariant
                t == folded_text@,
                q == needle@,
                q.len() > 0,
                last + q.len() == t.len(),
                text_len == t.len(),
                t == folded(text@, match_case),
                q == folded_values(folded(query@, match_case)),
                query@.len() > 0,
                forward,
                forall|j: int|
                    0 <= j < index && matches_at(t, q, j, whole_word) ==> #[trigger] range_at(t, q, j).0
                        < start,
                wrapped is None ==> forall|j: int| 0 <= j < index ==> !#[trigger] matches_at(t, q, j, whole_word),
                wrapped matches Some(w) ==> 0 <= first < index && matches_at(t, q, first, whole_word)
                    && w == range_at(t, q, first) && forall|j: int|
                    0 <= j < first ==> !#[trigger] matches_at(t, q, j, whole_word),
        {
            if matches_here(&folded_text, &needle, index, whole_word) {
                let range = (folded_text[index].start, folded_text[index + needle.len() - 1].end);
                assert(range == range_at(t, q, index as int));
                if range.0 >= start {
                    assert(has_match(t, q, whole_word));
                    assert(forward_result(t, q, whole_word, start, range));
                    return Some(range);
                }
                if wrapped.is_none() {
                    wrapped = Some(range);
                    proof {
                        first = index as int;
                    }
                }
            }
        }
        assert forall|j: int| #[trigger] matches_at(t, q, j, whole_word) implies range_at(t, q, j).0 < start by {
            assert(0 <= j <= last);
        }
        if wrapped.is_none() {
            assert forall|j: int| !#[trigger] matches_at(t, q, j, whole_word) by {
                if matches_at(t, q, j, whole_word) {
                    assert(0 <= j <= last);
                }
            }
        }
        wrapped
    } else {
        let mut wrapped: Option<(u32, u32)> = None;
        let ghost mut final_index: int = 0;
        let mut index = last + 1;
        while index > 0
            invariant
                t == folded_text@,
                q == needle@,
                q.len() > 0,
                last + q.len() == t.len(),
                text_len == t.len(),
                t == folded(text@, match_case),
                q == folded_values(folded(query@, match_case)),
                query@.len() > 0,
                !forward,
                index <= last + 1,
                forall|j: int|
                    index <= j && matches_at(t, q, j, whole_word) ==> #[trigger] range_at(t, q, j).1 > start,
                wrapped is None ==> forall|j: int| index <= j ==> !#[trigger] matches_at(t, q, j, whole_word),
                wrapped matches Some(w) ==> index <= final_index && matches_at(t, q, final_index, whole_word)
                    && w == range_at(t, q, final_index) && forall|j: int|
                    final_index < j ==> !#[trigger] matches_at(t, q, j, whole_word),
            decreases index,
        {
            index -= 1;
            if matches_here(&folded_text, &needle, index, whole_word) {
                let range = (folded_text[index].start, folded_text[index + needle.len() - 1].end);
                assert(range == range_at(t, q, index as int));
                if range.1 <= start {
                    assert(has_match(t, q, whole_word));
                    assert(backward_result(t, q, whole_word, start, range));
                    return Some(range);
                }
                if wrapped.is_none() {
                    wrapped = Some(range);
                    proof {
                        final_index = index as int;
                    }
                }
            }
        }
        if wrapped.is_none() {
            assert forall|j: int| !#[trigger] matches_at(t, q, j, whole_word) by {
                if matches_at(t, q, j, whole_word) {
                    assert(0 <= j);
                }
            }
        }
        wrapped
    }
}

proof fn lemma_with_range_fields(chars: Seq<char>, start: u32, end: u32)
    ensures
        with_range(chars, start, end).len() == chars.len(),
        forall|k: int|
            0 <= k < chars.len() ==> #[trigger] with_range(chars, start, end)[k].start == start
                && with_range(chars, start, end)[k].end == end,
    decreases chars.len(),
{
    if chars.len() > 0 {
        lemma_with_range_fields(chars.drop_last(), start, end);
        crate::text::lemma_char_range(chars.last());
        let w = with_range(chars, start, end);
        let rest = with_range(chars.drop_last(), start, end);
        assert(w == rest.push(FoldedChar { value: chars.last(), start, end }));
        assert forall|k: int| 0 <= k < chars.len() implies #[trigger] w[k].start == start && w[k].end
            == end by {
            if k < rest.len() {
                assert(w[k] == rest[k]);
            }
        }
    }
}

proof fn lemma_folded_from_ranges(t: Seq<u16>, i: int, match_case: bool)
    requires
        0 <= i,
        t.len() <= u32::MAX,
    ensures
        forall|k: int|
            0 <= k < folded_from(t, i, match_case).len() ==> i <= #[trigger] folded_from(
                t,
                i,
                match_case,
            )[k].start < folded_from(t, i, match_case)[k].end <= t.len(),
        forall|k: int, m: int|
            0 <= k < m < folded_from(t, i, match_case).len() ==> #[trigger] folded_from(
                t,
                i,
                match_case,
            )[k].start <= #[trigger] folded_from(t, i, match_case)[m].start,
    decreases t.len() - i,
{
    if i < t.len() {
        let w = unit_width(t, i);
        let here = folded_at(t, i, match_case);
        let rest = folded_from(t, i + w, match_case);
        let all = folded_from(t, i, match_case);
        lemma_folded_from_ranges(t, i + w, match_case);
        let c = unit_value(t, i) as char;
        lemma_with_range_fields(lowercase_of(c), i as u32, (i + w) as u32);
        assert(all == here + rest);
        assert forall|k: int| 0 <= k < here.len() implies #[trigger] here[k].start == i as u32
            && here[k].end == (i + w) as u32 by {}
        assert forall|k: int| 0 <= k < all.len() implies i <= #[trigger] all[k].start < all[k].end
            <= t.len() by {
            if k >= here.len() {
                assert(all[k] == rest[k - here.len()]);
            } else {
                assert(all[k] == here[k]);
            }
        }
        assert forall|k: int, m: int| 0 <= k < m < all.len() implies #[trigger] all[k].start
            <= #[trigger] all[m].start by {
            if m < here.len() {
                assert(all[k] == here[k]);
                assert(all[m] == here[m]);
            } else if k < here.len() {
                assert(all[k] == here[k]);
                assert(all[m] == rest[m - here.len()]);
            } else {
                assert(all[k] == rest[k - here.len()]);
                assert(all[m] == rest[m - here.len()]);
            }
        }
    }
}

/// Every occurrence that the search can report is a non-empty range of code units inside
/// the text.
pub proof fn lemma_match_range_in_text(text: Seq<u16>, q: Seq<char>, i: int, match_case: bool, whole_word: bool)
    requires
        text.len() <= u32::MAX,
        q.len() > 0,
        matches_at(folded(text, match_case), q, i, whole_word),
    ensures
        range_at(folded(text, match_case), q, i).0 < range_at(folded(text, match_case), q, i).1
            <= text.len(),
{
    let t = folded(text, match_case);
    lemma_folded_from_ranges(text, 0, match_case);
    assert(t[i].start <= t[i + q.len() - 1].start);
    assert(t[i + q.len() - 1].start < t[i + q.len() - 1].end <= text.len());
}

/// Decoding reads back what encoding wrote: the code units that encode a character,
/// one unit or a surrogate pair, are read as one character of that width and that value.
pub proof fn lemma_decoding_reads_back_encoding(c: char)
    ensures
        unit_width(utf16_units(c), 0) == utf16_units(c).len(),
        unit_value(utf16_units(c), 0) == c as u32,
{
    lemma_char_range(c);
    let v = c as u32;
    if v >= 0x10000 {
        let u = (v - 0x10000) as u32;
        assert(u < 0x100000);
        let hi = (0xD800 + (u >> 10u32)) as u16;
        let lo = (0xDC00 + (u & 0x3FFu32)) as u16;
        assert(0xD800 <= hi <= 0xDBFF && 0xDC00 <= lo <= 0xDFFF && (hi - 0xD800) * 0x400 + (lo - 0xDC00)
            == u) by (bit_vector)
            requires
                u < 0x100000,
                hi == (0xD800 + (u >> 10u32)) as u16,
                lo == (0xDC00 + (u & 0x3FFu32)) as u16,
        ;
        let t = utf16_units(c);
        assert(t[0] == hi && t[1] == lo);
    }
}

} // verus!
