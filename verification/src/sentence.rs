//! Sentence boundaries in UTF-16 text, for selecting a sentence by double-click.

use crate::text::is_white_space;
use crate::text::is_whitespace;
use vstd::prelude::*;

verus! {

/// The line feed code unit.
pub const LINE_FEED: u16 = 0x0A;

/// Whether `v` is a Unicode scalar value.
pub open spec fn is_scalar_value(v: u32) -> bool {
    v <= 0x10FFFF && !(0xD800 <= v <= 0xDFFF)
}

/// Calls `char::from_u32`, which its documentation describes as returning the `char` with
/// that value exactly when the value is a Unicode scalar value, and `None` otherwise.
#[verifier::external_body]
pub(crate) fn char_from_u32(v: u32) -> (c: Option<char>)
    ensures
        c is Some <==> is_scalar_value(v),
        c matches Some(ch) ==> ch as u32 == v && ch == v as char,
{
    char::from_u32(v)
}

/// Whether a code unit is, on its own, a character with the `White_Space` property.
pub open spec fn sentence_space(u: u16) -> bool {
    !(0xD800 <= u <= 0xDFFF) && is_white_space(u as char)
}

/// Whether a code unit is an ASCII letter or digit.
pub open spec fn ascii_alphanumeric(u: u16) -> bool {
    (0x30 <= u <= 0x39) || (0x41 <= u <= 0x5A) || (0x61 <= u <= 0x7A)
}

/// Whether the code unit at `i` ends a sentence: `。`, `！`, `？`, `!`, `?`, or a `.` that
/// is not a decimal point or dot between letters or digits.
pub open spec fn sentence_terminal(t: Seq<u16>, i: int) -> bool {
    let u = t[i];
    ||| u == 0x3002 || u == 0xFF01 || u == 0xFF1F || u == 0x21 || u == 0x3F
    ||| u == 0x2E && !(i > 0 && i + 1 < t.len() && ascii_alphanumeric(t[i - 1])
        && ascii_alphanumeric(t[i + 1]))
}

/// Whether a code unit closes a quotation or bracket after a sentence end:
/// `」 』 ） 】 〕 〉 》 ” ’ " ' ) ] }`.
pub open spec fn sentence_closer(u: u16) -> bool {
    ||| u == 0x300D || u == 0x300F || u == 0xFF09 || u == 0x3011 || u == 0x3015
    ||| u == 0x3009 || u == 0x300B || u == 0x201D || u == 0x2019
    ||| u == 0x22 || u == 0x27 || u == 0x29 || u == 0x5D || u == 0x7D
}

/// Whether a code unit is an ASCII letter or digit.
pub fn is_ascii_alphanumeric_utf16(value: u16) -> (b: bool)
    ensures
        b == ascii_alphanumeric(value),
{
    (0x30 <= value && value <= 0x39) || (0x41 <= value && value <= 0x5A) || (0x61 <= value
        && value <= 0x7A)
}

/// Whether the code unit at `index` ends a sentence.
pub fn is_sentence_terminal(text: &[u16], index: usize) -> (b: bool)
    requires
        index < text@.len(),
    ensures
        b == sentence_terminal(text@, index as int),
{
    let u = text[index];
    if u == 0x3002 || u == 0xFF01 || u == 0xFF1F || u == 0x21 || u == 0x3F {
        return true;
    }
    if u != 0x2E {
        return false;
    }
    let between_alphanumerics = index > 0 && index + 1 < text.len()
        && is_ascii_alphanumeric_utf16(text[index - 1]) && is_ascii_alphanumeric_utf16(
        text[index + 1],
    );
    !between_alphanumerics
}

/// Whether a code unit closes a quotation or bracket after a sentence end.
pub fn is_sentence_closer(value: u16) -> (b: bool)
    ensures
        b == sentence_closer(value),
{
    value == 0x300D || value == 0x300F || value == 0xFF09 || value == 0x3011 || value == 0x3015
        || value == 0x3009 || value == 0x300B || value == 0x201D || value == 0x2019 || value
        == 0x22 || value == 0x27 || value == 0x29 || value == 0x5D || value == 0x7D
}

/// Whether a code unit is, on its own, a white-space character.
pub fn is_sentence_whitespace(value: u16) -> (b: bool)
    ensures
        b == sentence_space(value),
{
    match char_from_u32(value as u32) {
        Some(c) => is_whitespace(c),
        None => false,
    }
}

/// The first position at or after `c` that is not white space.
pub open spec fn skip_spaces(t: Seq<u16>, c: int) -> int
    decreases t.len() - c,
{
    if 0 <= c < t.len() && sentence_space(t[c]) {
        skip_spaces(t, c + 1)
    } else {
        c
    }
}

/// The first position at or after `c` that does not end a sentence.
pub open spec fn skip_terminals(t: Seq<u16>, c: int) -> int
    decreases t.len() - c,
{
    if 0 <= c < t.len() && sentence_terminal(t, c) {
        skip_terminals(t, c + 1)
    } else {
        c
    }
}

/// The first position at or after `c` that is not a closing quotation or bracket.
pub open spec fn skip_closers(t: Seq<u16>, c: int) -> int
    decreases t.len() - c,
{
    if 0 <= c < t.len() && sentence_closer(t[c]) {
        skip_closers(t, c + 1)
    } else {
        c
    }
}

/// Where a sentence that reaches position `c` stops: at a line feed, at the end of the
/// text, or after a run of sentence ends and the closing marks that follow it.
pub open spec fn scan_sentence(t: Seq<u16>, c: int) -> int
    decreases t.len() - c,
{
    if c < 0 || c >= t.len() || t[c] == LINE_FEED {
        c
    } else if sentence_terminal(t, c) {
        skip_closers(t, skip_terminals(t, c + 1))
    } else {
        scan_sentence(t, c + 1)
    }
}

/// `end` moved back over trailing white space, not before `start`.
pub open spec fn trim_sentence_end(t: Seq<u16>, start: int, end: int) -> int
    decreases end - start,
{
    if start < end && end <= t.len() && sentence_space(t[end - 1]) {
        trim_sentence_end(t, start, end - 1)
    } else {
        end
    }
}

/// Skipping white space moves forward, stays within the text and stops on a character
/// that is not white space.
pub proof fn lemma_skip_spaces_bounds(t: Seq<u16>, c: int)
    requires
        0 <= c,
    ensures
        c <= skip_spaces(t, c),
        c <= t.len() ==> skip_spaces(t, c) <= t.len(),
        skip_spaces(t, c) < t.len() ==> !sentence_space(t[skip_spaces(t, c)]),
    decreases t.len() - c,
{
    if 0 <= c < t.len() && sentence_space(t[c]) {
        lemma_skip_spaces_bounds(t, c + 1);
    }
}

/// Skipping sentence ends moves forward and stays within the text.
pub proof fn lemma_skip_terminals_bounds(t: Seq<u16>, c: int)
    requires
        0 <= c <= t.len(),
    ensures
        c <= skip_terminals(t, c) <= t.len(),
    decreases t.len() - c,
{
    if 0 <= c < t.len() && sentence_terminal(t, c) {
        lemma_skip_terminals_bounds(t, c + 1);
    }
}

/// Skipping closing marks moves forward and stays within the text.
pub proof fn lemma_skip_closers_bounds(t: Seq<u16>, c: int)
    requires
        0 <= c <= t.len(),
    ensures
        c <= skip_closers(t, c) <= t.len(),
    decreases t.len() - c,
{
    if 0 <= c < t.len() && sentence_closer(t[c]) {
        lemma_skip_closers_bounds(t, c + 1);
    }
}

/// A sentence scan moves forward, stays within the text, and takes at least one code unit
/// unless it starts on a line feed.
pub proof fn lemma_scan_sentence_bounds(t: Seq<u16>, c: int)
    requires
        0 <= c <= t.len(),
    ensures
        c <= scan_sentence(t, c) <= t.len(),
        c < t.len() && t[c] != LINE_FEED ==> c < scan_sentence(t, c),
    decreases t.len() - c,
{
    if c < t.len() && t[c] != LINE_FEED {
        if sentence_terminal(t, c) {
            lemma_skip_terminals_bounds(t, c + 1);
            lemma_skip_closers_bounds(t, skip_terminals(t, c + 1));
        } else {
            lemma_scan_sentence_bounds(t, c + 1);
        }
    }
}

/// Trimming a sentence's end stays between its start and end and stops after a character
/// that is not white space.
pub proof fn lemma_trim_sentence_end_bounds(t: Seq<u16>, start: int, end: int)
    requires
        0 <= start <= end <= t.len(),
    ensures
        start <= trim_sentence_end(t, start, end) <= end,
        start < trim_sentence_end(t, start, end) ==> !sentence_space(
            t[trim_sentence_end(t, start, end) - 1],
        ),
    decreases end - start,
{
    if start < end && sentence_space(t[end - 1]) {
        lemma_trim_sentence_end_bounds(t, start, end - 1);
    }
}

/// Where the search resumes after a sentence that stopped at `c`: past a line feed.
pub open spec fn resume_after(t: Seq<u16>, c: int) -> int {
    if 0 <= c < t.len() && t[c] == LINE_FEED {
        c + 1
    } else {
        c
    }
}

/// The first sentence from `cursor` on that ends after `target`, or else the last sentence
/// found (starting from `last`).
pub open spec fn sentence_search(t: Seq<u16>, target: int, cursor: int, last: Option<(u32, u32)>) -> Option<(u32, u32)>
    decreases t.len() - cursor,
{
    if cursor < 0 || cursor >= t.len() {
        last
    } else {
        let start = skip_spaces(t, cursor);
        if start >= t.len() {
            last
        } else {
            let c = scan_sentence(t, start);
            let end = trim_sentence_end(t, start, c);
            let next = resume_after(t, c);
            proof {
                lemma_skip_spaces_bounds(t, cursor);
                lemma_scan_sentence_bounds(t, start);
            }
            if start < end {
                if target < end {
                    Some((start as u32, end as u32))
                } else {
                    sentence_search(t, target, next, Some((start as u32, end as u32)))
                }
            } else {
                sentence_search(t, target, next, last)
            }
        }
    }
}

/// The sentence around `position`: the first sentence that ends after it (the position is
/// first clamped to the last code unit), or the last sentence of the text.
pub open spec fn sentence_range_spec(t: Seq<u16>, position: u32) -> Option<(u32, u32)> {
    if t.len() == 0 {
        None
    } else {
        let last_index = ((t.len() - 1) as usize) as u32;
        let target = if position < last_index { position } else { last_index };
        sentence_search(t, target as int, 0, None)
    }
}

fn skip_sentence_spaces(text: &[u16], from: usize) -> (r: usize)
    requires
        from <= text@.len(),
    ensures
        r == skip_spaces(text@, from as int),
{
    let mut cursor = from;
    while cursor < text.len() && is_sentence_whitespace(text[cursor])
        invariant
            from <= cursor <= text@.len(),
            skip_spaces(text@, cursor as int) == skip_spaces(text@, from as int),
        decreases text@.len() - cursor,
    {
        cursor += 1;
    }
    cursor
}

fn scan_sentence_end(text: &[u16], start: usize) -> (r: usize)
    requires
        start <= text@.len(),
    ensures
        r == scan_sentence(text@, start as int),
{
    let mut cursor = start;
    while cursor < text.len() && text[cursor] != LINE_FEED
        invariant
            start <= cursor <= text@.len(),
            scan_sentence(text@, cursor as int) == scan_sentence(text@, start as int),
        decreases text@.len() - cursor,
    {
        if is_sentence_terminal(text, cursor) {
            cursor += 1;
            while cursor < text.len() && is_sentence_terminal(text, cursor)
                invariant
                    cursor <= text@.len(),
                    skip_closers(text@, skip_terminals(text@, cursor as int)) == scan_sentence(
                        text@,
                        start as int,
                    ),
                decreases text@.len() - cursor,
            {
                cursor += 1;
            }
            while cursor < text.len() && is_sentence_closer(text[cursor])
                invariant
                    cursor <= text@.len(),
                    skip_closers(text@, cursor as int) == scan_sentence(text@, start as int),
                decreases text@.len() - cursor,
            {
                cursor += 1;
            }
            return cursor;
        }
        cursor += 1;
    }
    cursor
}

fn trim_trailing_spaces(text: &[u16], start: usize, stop: usize) -> (r: usize)
    requires
        start <= stop <= text@.len(),
    ensures
        r == trim_sentence_end(text@, start as int, stop as int),
{
    let mut end = stop;
    while end > start && is_sentence_whitespace(text[end - 1])
        invariant
            start <= end <= stop <= text@.len(),
            trim_sentence_end(text@, start as int, end as int) == trim_sentence_end(
                text@,
                start as int,
                stop as int,
            ),
        decreases end,
    {
        end -= 1;
    }
    end
}

/// The sentence around `position` in `text`, as a range of code units without the
/// surrounding white space. Sentences end at `。！？!?`, at a `.` that is not between
/// letters or digits, or at a line feed; closing quotation marks stay with their sentence.
pub fn sentence_range_utf16(text: &[u16], position: u32) -> (r: Option<(u32, u32)>)
    ensures
        r == sentence_range_spec(text@, position),
{
    if text.len() == 0 {
        return None;
    }
    let last_index = (text.len() - 1) as u32;
    let target = if position < last_index {
        position
    } else {
        last_index
    };
    let ghost t = text@;
    let mut cursor: usize = 0;
    let mut last_range: Option<(u32, u32)> = None;
    while cursor < text.len()
        invariant
            cursor <= t.len(),
            t == text@,
            sentence_range_spec(t, position) == sentence_search(t, target as int, cursor as int, last_range),
        decreases t.len() - cursor,
    {
        let start = skip_sentence_spaces(text, cursor);
        proof {
            lemma_skip_spaces_bounds(t, cursor as int);
        }
        if start == text.len() {
            return last_range;
        }
        let stop = scan_sentence_end(text, start);
        proof {
            lemma_scan_sentence_bounds(t, start as int);
        }
        let end = trim_trailing_spaces(text, start, stop);
        let next = if stop < text.len() && text[stop] == LINE_FEED {
            stop + 1
        } else {
            stop
        };
        if start < end {
            let range = (start as u32, end as u32);
            if (target as usize) < end {
                return Some(range);
            }
            last_range = Some(range);
        }
        cursor = next;
    }
    last_range
}

proof fn lemma_skip_spaces_stops(t: Seq<u16>, c: int, target: int)
    requires
        0 <= c <= target < t.len(),
        !sentence_space(t[target]),
    ensures
        skip_spaces(t, c) <= target,
    decreases t.len() - c,
{
    if c < target && sentence_space(t[c]) {
        lemma_skip_spaces_stops(t, c + 1, target);
    }
}

proof fn lemma_trim_keeps(t: Seq<u16>, start: int, end: int, target: int)
    requires
        0 <= start <= target < end <= t.len(),
        !sentence_space(t[target]),
    ensures
        target < trim_sentence_end(t, start, end),
    decreases end - start,
{
    if end - 1 > target && sentence_space(t[end - 1]) {
        lemma_trim_keeps(t, start, end - 1, target);
    }
}

proof fn lemma_search_contains(t: Seq<u16>, target: int, cursor: int, last: Option<(u32, u32)>)
    requires
        t.len() <= u32::MAX,
        0 <= cursor <= target < t.len(),
        !sentence_space(t[target]),
        t[target] != LINE_FEED,
    ensures
        sentence_search(t, target, cursor, last) matches Some((s, e)) && s <= target < e <= t.len(),
    decreases t.len() - cursor,
{
    let start = skip_spaces(t, cursor);
    lemma_skip_spaces_bounds(t, cursor);
    lemma_skip_spaces_stops(t, cursor, target);
    let c = scan_sentence(t, start);
    lemma_scan_sentence_bounds(t, start);
    let end = trim_sentence_end(t, start, c);
    lemma_trim_sentence_end_bounds(t, start, c);
    if c > target {
        lemma_trim_keeps(t, start, c, target);
    } else {
        let next = resume_after(t, c);
        if !(start < end && target < end) {
            lemma_search_contains(t, target, next, if start < end {
                Some((start as u32, end as u32))
            } else {
                last
            });
        }
    }
}

/// Double-clicking a character selects a sentence that contains it: when the code unit
/// at `position` is neither white space nor a line feed, the sentence range around it is
/// a range of the text that holds `position`.
pub proof fn lemma_sentence_contains_position(t: Seq<u16>, position: u32)
    requires
        t.len() <= u32::MAX,
        position < t.len(),
        !sentence_space(t[position as int]),
        t[position as int] != LINE_FEED,
    ensures
        sentence_range_spec(t, position) matches Some((s, e)) && s <= position < e <= t.len(),
{
    lemma_search_contains(t, position as int, 0, None);
}

proof fn lemma_search_keeps_found(t: Seq<u16>, target: int, cursor: int, last: Option<(u32, u32)>)
    requires
        0 <= cursor,
        last is Some,
    ensures
        sentence_search(t, target, cursor, last) is Some,
    decreases t.len() - cursor,
{
    if cursor < t.len() {
        let start = skip_spaces(t, cursor);
        lemma_skip_spaces_bounds(t, cursor);
        if start < t.len() {
            let c = scan_sentence(t, start);
            lemma_scan_sentence_bounds(t, start);
            let end = trim_sentence_end(t, start, c);
            let next = resume_after(t, c);
            if start < end {
                if !(target < end) {
                    lemma_search_keeps_found(t, target, next, Some((start as u32, end as u32)));
                }
            } else {
                lemma_search_keeps_found(t, target, next, last);
            }
        }
    }
}

proof fn lemma_search_finds(t: Seq<u16>, target: int, cursor: int, last: Option<(u32, u32)>, k: int)
    requires
        0 <= cursor <= k < t.len(),
        !sentence_space(t[k]),
        t[k] != LINE_FEED,
    ensures
        sentence_search(t, target, cursor, last) is Some,
    decreases t.len() - cursor,
{
    let start = skip_spaces(t, cursor);
    lemma_skip_spaces_bounds(t, cursor);
    lemma_skip_spaces_stops(t, cursor, k);
    let c = scan_sentence(t, start);
    lemma_scan_sentence_bounds(t, start);
    let end = trim_sentence_end(t, start, c);
    let next = resume_after(t, c);
    if t[start] == LINE_FEED {
        assert(c == start);
        assert(end == start);
        lemma_search_finds(t, target, next, last, k);
    } else {
        lemma_trim_keeps(t, start, c, start);
        if !(target < end) {
            lemma_search_keeps_found(t, target, next, Some((start as u32, end as u32)));
        }
    }
}

proof fn lemma_search_none(t: Seq<u16>, target: int, cursor: int)
    requires
        0 <= cursor,
        forall|k: int| cursor <= k < t.len() ==> sentence_space(#[trigger] t[k]) || t[k] == LINE_FEED,
    ensures
        sentence_search(t, target, cursor, None) is None,
    decreases t.len() - cursor,
{
    if cursor < t.len() {
        let start = skip_spaces(t, cursor);
        lemma_skip_spaces_bounds(t, cursor);
        if start < t.len() {
            assert(t[start] == LINE_FEED);
            let c = scan_sentence(t, start);
            assert(c == start);
            let end = trim_sentence_end(t, start, c);
            assert(end == start);
            lemma_search_none(t, target, start + 1);
        }
    }
}

/// Double-clicking selects a sentence exactly when the text holds a character other than
/// white space and line feeds.
pub proof fn lemma_sentence_exists(t: Seq<u16>, position: u32)
    ensures
        sentence_range_spec(t, position) is Some <==> exists|k: int|
            0 <= k < t.len() && !sentence_space(#[trigger] t[k]) && t[k] != LINE_FEED,
{
    if t.len() > 0 {
        let last_index = ((t.len() - 1) as usize) as u32;
        let target = if position < last_index { position } else { last_index };
        if exists|k: int| 0 <= k < t.len() && !sentence_space(#[trigger] t[k]) && t[k] != LINE_FEED {
            let k = choose|k: int| 0 <= k < t.len() && !sentence_space(#[trigger] t[k]) && t[k] != LINE_FEED;
            lemma_search_finds(t, target as int, 0, None, k);
        } else {
            lemma_search_none(t, target as int, 0);
        }
    }
}

/// A sentence range: non-empty, inside the text, starting and ending on a character that
/// is not white space, and holding no line feed.
pub open spec fn is_sentence_range(t: Seq<u16>, s: int, e: int) -> bool {
    &&& 0 <= s < e <= t.len()
    &&& !sentence_space(t[s])
    &&& !sentence_space(t[e - 1])
    &&& forall|k: int| s <= k < e ==> #[trigger] t[k] != LINE_FEED
}

proof fn lemma_skip_terminals_no_line_feed(t: Seq<u16>, c: int)
    requires
        0 <= c <= t.len(),
    ensures
        forall|k: int| c <= k < skip_terminals(t, c) ==> #[trigger] t[k] != LINE_FEED,
    decreases t.len() - c,
{
    if c < t.len() && sentence_terminal(t, c) {
        lemma_skip_terminals_no_line_feed(t, c + 1);
    }
}

proof fn lemma_skip_closers_no_line_feed(t: Seq<u16>, c: int)
    requires
        0 <= c <= t.len(),
    ensures
        forall|k: int| c <= k < skip_closers(t, c) ==> #[trigger] t[k] != LINE_FEED,
    decreases t.len() - c,
{
    if c < t.len() && sentence_closer(t[c]) {
        lemma_skip_closers_no_line_feed(t, c + 1);
    }
}

proof fn lemma_scan_no_line_feed(t: Seq<u16>, c: int)
    requires
        0 <= c <= t.len(),
    ensures
        forall|k: int| c <= k < scan_sentence(t, c) ==> #[trigger] t[k] != LINE_FEED,
    decreases t.len() - c,
{
    if c < t.len() && t[c] != LINE_FEED {
        if sentence_terminal(t, c) {
            lemma_skip_terminals_no_line_feed(t, c + 1);
            lemma_skip_terminals_bounds(t, c + 1);
            lemma_skip_closers_no_line_feed(t, skip_terminals(t, c + 1));
        } else {
            lemma_scan_no_line_feed(t, c + 1);
        }
    }
}

proof fn lemma_search_shape(t: Seq<u16>, target: int, cursor: int, last: Option<(u32, u32)>)
    requires
        t.len() <= u32::MAX,
        0 <= cursor,
        last matches Some((s, e)) ==> is_sentence_range(t, s as int, e as int),
    ensures
        sentence_search(t, target, cursor, last) matches Some((s, e)) ==> is_sentence_range(
            t,
            s as int,
            e as int,
        ),
    decreases t.len() - cursor,
{
    if cursor < t.len() {
        let start = skip_spaces(t, cursor);
        lemma_skip_spaces_bounds(t, cursor);
        if start < t.len() {
            let c = scan_sentence(t, start);
            lemma_scan_sentence_bounds(t, start);
            lemma_scan_no_line_feed(t, start);
            let end = trim_sentence_end(t, start, c);
            lemma_trim_sentence_end_bounds(t, start, c);
            let next = resume_after(t, c);
            if start < end {
                assert(is_sentence_range(t, start, end));
                if !(target < end) {
                    lemma_search_shape(t, target, next, Some((start as u32, end as u32)));
                }
            } else {
                lemma_search_shape(t, target, next, last);
            }
        }
    }
}

/// Every sentence range that a double-click can select is a non-empty range of the text
/// that starts and ends on a character other than white space and never crosses a hard
/// line break.
pub proof fn lemma_sentence_range_shape(t: Seq<u16>, position: u32)
    requires
        t.len() <= u32::MAX,
    ensures
        sentence_range_spec(t, position) matches Some((s, e)) ==> is_sentence_range(
            t,
            s as int,
            e as int,
        ),
{
    if t.len() > 0 {
        let last_index = ((t.len() - 1) as usize) as u32;
        let target = if position < last_index { position } else { last_index };
        lemma_search_shape(t, target as int, 0, None);
    }
}

proof fn lemma_skip_terminals_stop(t: Seq<u16>, c: int, k: int)
    requires
        0 <= c <= k + 1,
        k + 1 < t.len(),
        t[k + 1] == 0x20,
    ensures
        skip_terminals(t, c) <= k + 1,
    decreases k + 1 - c,
{
    if c < k + 1 && sentence_terminal(t, c) {
        lemma_skip_terminals_stop(t, c + 1, k);
    }
}

proof fn lemma_skip_closers_stop(t: Seq<u16>, c: int, k: int)
    requires
        0 <= c <= k + 1,
        k + 1 < t.len(),
        t[k + 1] == 0x20,
        !sentence_closer(t[k]),
    ensures
        skip_closers(t, c) <= k + 1,
    decreases k + 1 - c,
{
    if c < k && sentence_closer(t[c]) {
        lemma_skip_closers_stop(t, c + 1, k);
    }
}

proof fn lemma_scan_stops_at_end_mark(t: Seq<u16>, c: int, k: int)
    requires
        0 <= c <= k,
        k + 1 < t.len(),
        t[k] == 0x3002 || t[k] == 0xFF01 || t[k] == 0xFF1F || t[k] == 0x21 || t[k] == 0x3F || t[k] == 0x2E,
        t[k + 1] == 0x20,
    ensures
        scan_sentence(t, c) <= k + 1,
    decreases k - c,
{
    if t[c] != LINE_FEED {
        if sentence_terminal(t, c) {
            lemma_skip_terminals_bounds(t, c + 1);
            lemma_skip_terminals_stop(t, c + 1, k);
            lemma_skip_closers_stop(t, skip_terminals(t, c + 1), k);
        } else {
            assert(c != k);
            lemma_scan_stops_at_end_mark(t, c + 1, k);
        }
    }
}

proof fn lemma_search_stops_at_end_marks(t: Seq<u16>, target: int, cursor: int, last: Option<(u32, u32)>)
    requires
        t.len() <= u32::MAX,
        0 <= cursor,
        last matches Some((s, e)) ==> no_end_mark_inside(t, s as int, e as int),
    ensures
        sentence_search(t, target, cursor, last) matches Some((s, e)) ==> no_end_mark_inside(
            t,
            s as int,
            e as int,
        ),
    decreases t.len() - cursor,
{
    if cursor < t.len() {
        let start = skip_spaces(t, cursor);
        lemma_skip_spaces_bounds(t, cursor);
        if start < t.len() {
            let c = scan_sentence(t, start);
            lemma_scan_sentence_bounds(t, start);
            let end = trim_sentence_end(t, start, c);
            lemma_trim_sentence_end_bounds(t, start, c);
            let next = resume_after(t, c);
            assert forall|k: int| start <= k && k + 1 < end implies !(#[trigger] end_mark_before_space(t, k)) by {
                if end_mark_before_space(t, k) {
                    lemma_scan_stops_at_end_mark(t, start, k);
                }
            }
            if start < end {
                if !(target < end) {
                    lemma_search_stops_at_end_marks(t, target, next, Some((start as u32, end as u32)));
                }
            } else {
                lemma_search_stops_at_end_marks(t, target, next, last);
            }
        }
    }
}

/// Whether position `k` holds a sentence end (`。！？!?` or `.`) followed by a space.
pub open spec fn end_mark_before_space(t: Seq<u16>, k: int) -> bool {
    &&& 0 <= k && k + 1 < t.len()
    &&& t[k] == 0x3002 || t[k] == 0xFF01 || t[k] == 0xFF1F || t[k] == 0x21 || t[k] == 0x3F || t[k] == 0x2E
    &&& t[k + 1] == 0x20
}

/// Whether no sentence end followed by a space lies inside `s..e` (before its last unit).
pub open spec fn no_end_mark_inside(t: Seq<u16>, s: int, e: int) -> bool {
    forall|k: int| s <= k && k + 1 < e ==> !#[trigger] end_mark_before_space(t, k)
}

/// A selected sentence never runs past the end of a sentence: no `。`, `！`, `？`, `!`, `?`
/// or `.` followed by a space lies inside the range that a double-click selects, so the
/// next sentence starts after it.
pub proof fn lemma_sentence_ends_at_end_marks(t: Seq<u16>, position: u32)
    requires
        t.len() <= u32::MAX,
    ensures
        sentence_range_spec(t, position) matches Some((s, e)) ==> no_end_mark_inside(t, s as int, e as int),
{
    if t.len() > 0 {
        let last_index = ((t.len() - 1) as usize) as u32;
        let target = if position < last_index { position } else { last_index };
        lemma_search_stops_at_end_marks(t, target as int, 0, None);
    }
}

/// Whether no unit of `t` could end a sentence: no line feed, none of `。！？!?`, and every
/// `.` stands between two ASCII letters or digits (as in `1.2` or `example.com`).
pub open spec fn one_sentence_text(t: Seq<u16>) -> bool {
    forall|k: int|
        0 <= k < t.len() ==> {
            &&& #[trigger] t[k] != 0x0A
            &&& t[k] != 0x3002 && t[k] != 0xFF01 && t[k] != 0xFF1F && t[k] != 0x21 && t[k] != 0x3F
            &&& t[k] == 0x2E ==> (0 < k && k + 1 < t.len() && (0x30 <= t[k - 1] <= 0x39 || 0x41 <= t[k - 1]
                <= 0x5A || 0x61 <= t[k - 1] <= 0x7A) && (0x30 <= t[k + 1] <= 0x39 || 0x41 <= t[k + 1]
                <= 0x5A || 0x61 <= t[k + 1] <= 0x7A))
        }
}

proof fn lemma_scan_runs_to_end(t: Seq<u16>, c: int)
    requires
        0 <= c <= t.len(),
        one_sentence_text(t),
    ensures
        scan_sentence(t, c) == t.len(),
    decreases t.len() - c,
{
    if c < t.len() {
        assert(t[c] != 0x0A);
        assert(!sentence_terminal(t, c));
        lemma_scan_runs_to_end(t, c + 1);
    }
}

/// A text with nothing that ends a sentence is one sentence: when it neither starts nor
/// ends with white space, a double-click anywhere in it selects all of it. Decimal points
/// and dots inside names do not split it.
pub proof fn lemma_one_sentence_selected_whole(t: Seq<u16>, position: u32)
    requires
        0 < t.len() <= u32::MAX,
        one_sentence_text(t),
        !sentence_space(t[0]),
        !sentence_space(t[t.len() - 1]),
    ensures
        sentence_range_spec(t, position) == Some((0u32, t.len() as u32)),
{
    lemma_scan_runs_to_end(t, 0);
    let n = t.len() as int;
    assert(skip_spaces(t, 0) == 0);
    assert(trim_sentence_end(t, 0, n) == n);
    let last_index = ((t.len() - 1) as usize) as u32;
    let target = if position < last_index { position } else { last_index };
    assert(target < n);
}

/// Whether position `k` holds `。`, `！`, `？`, `!` or `?` directly followed by a closing
/// quotation mark or bracket (`」 』 ） 】 〕 〉 》 ” ’ " ' ) ] }`) that is not white space.
pub open spec fn closer_after_end_mark(t: Seq<u16>, k: int) -> bool {
    &&& 0 <= k && k + 1 < t.len()
    &&& t[k] == 0x3002 || t[k] == 0xFF01 || t[k] == 0xFF1F || t[k] == 0x21 || t[k] == 0x3F
    &&& {
        let u = t[k + 1];
        ||| u == 0x300D || u == 0x300F || u == 0xFF09 || u == 0x3011 || u == 0x3015
        ||| u == 0x3009 || u == 0x300B || u == 0x201D || u == 0x2019
        ||| u == 0x22 || u == 0x27 || u == 0x29 || u == 0x5D || u == 0x7D
    }
    &&& !sentence_space(t[k + 1])
}

/// Whether every sentence end inside `s..e` that a closing mark follows has that mark
/// inside `s..e` too.
pub open spec fn keeps_closers(t: Seq<u16>, s: int, e: int) -> bool {
    forall|k: int| s <= k < e && #[trigger] closer_after_end_mark(t, k) ==> k + 1 < e
}

proof fn lemma_skip_terminals_before_closer(t: Seq<u16>, c: int, k: int)
    requires
        0 <= c <= k + 1,
        closer_after_end_mark(t, k),
    ensures
        skip_terminals(t, c) <= k + 1,
    decreases k + 1 - c,
{
    if c < k + 1 && sentence_terminal(t, c) {
        lemma_skip_terminals_before_closer(t, c + 1, k);
    }
}

proof fn lemma_skip_closers_before_mark(t: Seq<u16>, c: int, k: int)
    requires
        0 <= c <= k,
        closer_after_end_mark(t, k),
    ensures
        skip_closers(t, c) <= k,
    decreases k - c,
{
    if c < k && sentence_closer(t[c]) {
        lemma_skip_closers_before_mark(t, c + 1, k);
    }
}

proof fn lemma_scan_keeps_closer(t: Seq<u16>, c: int, k: int)
    requires
        0 <= c <= k,
        closer_after_end_mark(t, k),
    ensures
        scan_sentence(t, c) <= k || scan_sentence(t, c) >= k + 2,
    decreases k - c,
{
    if t[c] != LINE_FEED {
        if sentence_terminal(t, c) {
            lemma_skip_terminals_before_closer(t, c + 1, k);
            let a = skip_terminals(t, c + 1);
            if a == k + 1 {
                assert(sentence_closer(t[k + 1]));
                lemma_skip_closers_bounds(t, k + 2);
            } else {
                lemma_skip_terminals_bounds(t, c + 1);
                lemma_skip_closers_before_mark(t, a, k);
            }
        } else {
            assert(c != k);
            lemma_scan_keeps_closer(t, c + 1, k);
        }
    }
}

proof fn lemma_trim_keeps_character(t: Seq<u16>, start: int, end: int, j: int)
    requires
        0 <= start <= j < end <= t.len(),
        !sentence_space(t[j]),
    ensures
        trim_sentence_end(t, start, end) > j,
    decreases end - start,
{
    if start < end && sentence_space(t[end - 1]) {
        lemma_trim_keeps_character(t, start, end - 1, j);
    }
}

proof fn lemma_search_keeps_closers(t: Seq<u16>, target: int, cursor: int, last: Option<(u32, u32)>)
    requires
        t.len() <= u32::MAX,
        0 <= cursor,
        last matches Some((s, e)) ==> keeps_closers(t, s as int, e as int),
    ensures
        sentence_search(t, target, cursor, last) matches Some((s, e)) ==> keeps_closers(t, s as int, e as int),
    decreases t.len() - cursor,
{
    if cursor < t.len() {
        let start = skip_spaces(t, cursor);
        lemma_skip_spaces_bounds(t, cursor);
        if start < t.len() {
            let c = scan_sentence(t, start);
            lemma_scan_sentence_bounds(t, start);
            let end = trim_sentence_end(t, start, c);
            lemma_trim_sentence_end_bounds(t, start, c);
            let next = resume_after(t, c);
            assert forall|k: int| start <= k < end && #[trigger] closer_after_end_mark(t, k) implies k + 1 < end by {
                lemma_scan_keeps_closer(t, start, k);
                lemma_trim_keeps_character(t, start, c, k + 1);
            }
            if start < end {
                if !(target < end) {
                    lemma_search_keeps_closers(t, target, next, Some((start as u32, end as u32)));
                }
            } else {
                lemma_search_keeps_closers(t, target, next, last);
            }
        }
    }
}

/// Closing quotation marks and brackets stay with their sentence: when `。`, `！`, `？`,
/// `!` or `?` inside a selected sentence is followed by `」 』 ） 】 〕 〉 》 ” ’ " ' ) ] }`,
/// that mark is selected too.
pub proof fn lemma_sentence_keeps_closing_marks(t: Seq<u16>, position: u32)
    requires
        t.len() <= u32::MAX,
    ensures
        sentence_range_spec(t, position) matches Some((s, e)) ==> keeps_closers(t, s as int, e as int),
{
    if t.len() > 0 {
        let last_index = ((t.len() - 1) as usize) as u32;
        let target = if position < last_index { position } else { last_index };
        lemma_search_keeps_closers(t, target as int, 0, None);
    }
}

} // verus!
