//! The text of a laid-out document: the UTF-16 text that selection, copy, search and
//! sentence selection work on, and where each block's text lies in it.

use crate::markdown::{BlockKind, BlockKindModel, BlockModel, Document};
use crate::search::{find_utf16, search_outcome};
use crate::sentence::{sentence_range_spec, sentence_range_utf16};
use crate::text::{
    chars_of, is_white_space, join_spec, push_utf16, trim, trim_end_spec, trim_spec,
    utf16_encode,
};
use vstd::prelude::*;
use vstd::slice::slice_subrange;
use vstd::string::StringExecFns;

verus! {

/// `(start, end)` ordered and clamped to `text_len`.
pub open spec fn normalized_range_spec(anchor: u32, active: u32, text_len: u32) -> (u32, u32) {
    let low = if anchor <= active { anchor } else { active };
    let high = if anchor <= active { active } else { anchor };
    (if low <= text_len { low } else { text_len }, if high <= text_len { high } else { text_len })
}

/// Orders the two ends of a selection and clamps both to the text length.
pub fn normalized_range(anchor: u32, active: u32, text_len: u32) -> (range: (u32, u32))
    ensures
        range == normalized_range_spec(anchor, active, text_len),
        range.0 <= range.1 <= text_len,
{
    let start = if anchor <= active {
        anchor
    } else {
        active
    };
    let end = if anchor <= active {
        active
    } else {
        anchor
    };
    (if start <= text_len {
        start
    } else {
        text_len
    }, if end <= text_len {
        end
    } else {
        text_len
    })
}

/// Whether position `p` lies in `range`.
pub open spec fn range_covers(range: (u32, u32), p: int) -> bool {
    range.0 <= p < range.1
}

/// A selection covers the same positions whichever end it was started from: exactly those
/// between its two ends that lie in the text.
pub proof fn lemma_normalized_range_covers_between(anchor: u32, active: u32, text_len: u32)
    ensures
        normalized_range_spec(anchor, active, text_len) == normalized_range_spec(active, anchor, text_len),
        forall|p: int|
            #[trigger] range_covers(normalized_range_spec(anchor, active, text_len), p) <==> ((anchor <= p
                < active || active <= p < anchor) && p < text_len),
{
}

/// `c` mapped to ASCII lowercase.
pub open spec fn ascii_lower(c: char) -> char {
    if 'A' <= c <= 'Z' {
        ((c as u32) + 32) as char
    } else {
        c
    }
}

/// Whether `s`, read in ASCII lowercase, starts with `prefix`.
pub open spec fn starts_with_lower(s: Seq<char>, prefix: Seq<char>) -> bool {
    &&& prefix.len() <= s.len()
    &&& forall|i: int| 0 <= i < prefix.len() ==> ascii_lower(#[trigger] s[i]) == prefix[i]
}

/// Whether an image source points outside the file: `http://`, `https://` or `data:`,
/// in any letter case, after trimming white space.
pub open spec fn remote_source(source: Seq<char>) -> bool {
    let s = trim_spec(source);
    ||| starts_with_lower(s, seq!['h', 't', 't', 'p', ':', '/', '/'])
    ||| starts_with_lower(s, seq!['h', 't', 't', 'p', 's', ':', '/', '/'])
    ||| starts_with_lower(s, seq!['d', 'a', 't', 'a', ':'])
}

/// Which image sources count as remote, for a source without white space at either end:
/// every one that starts with `http://`, `https://` or `data:` in any letter case, and
/// none without a `:` in it, such as a relative path.
pub proof fn lemma_remote_sources(s: Seq<char>)
    requires
        s.len() > 0,
        !is_white_space(s[0]),
        !is_white_space(s.last()),
    ensures
        starts_with_lower(s, "http://"@) ==> remote_source(s),
        starts_with_lower(s, "https://"@) ==> remote_source(s),
        starts_with_lower(s, "data:"@) ==> remote_source(s),
        (forall|i: int| 0 <= i < s.len() ==> #[trigger] s[i] != ':') ==> !remote_source(s),
{
    reveal_strlit("http://");
    reveal_strlit("https://");
    reveal_strlit("data:");
    assert(trim_end_spec(s) == s);
    assert(trim_spec(s) == s);
    assert("http://"@ =~= seq!['h', 't', 't', 'p', ':', '/', '/']);
    assert("https://"@ =~= seq!['h', 't', 't', 'p', 's', ':', '/', '/']);
    assert("data:"@ =~= seq!['d', 'a', 't', 'a', ':']);
    if forall|i: int| 0 <= i < s.len() ==> #[trigger] s[i] != ':' {
        if s.len() > 4 {
            assert(ascii_lower(s[4]) != ':');
        }
        if s.len() > 5 {
            assert(ascii_lower(s[5]) != ':');
        }
    }
}

fn starts_with_ascii_lower(s: &Vec<char>, prefix: &[char]) -> (b: bool)
    ensures
        b == starts_with_lower(s@, prefix@),
{
    if prefix.len() > s.len() {
        return false;
    }
    for i in 0..prefix.len()
        invariant
            prefix@.len() <= s@.len(),
            forall|j: int| 0 <= j < i ==> ascii_lower(#[trigger] s@[j]) == prefix@[j],
    {
        let c = s[i];
        let p = prefix[i];
        proof {
            crate::text::lemma_char_range(c);
            crate::text::lemma_char_range(p);
        }
        let same = if 'A' <= c && c <= 'Z' {
            (c as u32) + 32 == p as u32
        } else {
            c == p
        };
        if !same {
            assert(ascii_lower(s@[i as int]) != prefix@[i as int]);
            return false;
        }
    }
    true
}

/// Whether an image source points outside the file (`http://`, `https://`, `data:`). Such
/// images are never fetched.
pub fn is_remote_source(source: &str) -> (remote: bool)
    ensures
        remote == remote_source(source@),
{
    let chars = chars_of(trim(source));
    let http = ['h', 't', 't', 'p', ':', '/', '/'];
    let https = ['h', 't', 't', 'p', 's', ':', '/', '/'];
    let data = ['d', 'a', 't', 'a', ':'];
    assert(http@ =~= seq!['h', 't', 't', 'p', ':', '/', '/']);
    assert(https@ =~= seq!['h', 't', 't', 'p', 's', ':', '/', '/']);
    assert(data@ =~= seq!['d', 'a', 't', 'a', ':']);
    starts_with_ascii_lower(&chars, &http) || starts_with_ascii_lower(&chars, &https)
        || starts_with_ascii_lower(&chars, &data)
}

/// The label of an image: its trimmed alternative text, or `image` when that is empty.
pub open spec fn image_label(alt: Seq<char>) -> Seq<char> {
    if trim_spec(alt).len() == 0 {
        "image"@
    } else {
        trim_spec(alt)
    }
}

/// The text shown for an image: a marker (which says when a remote image is left out),
/// the label, and the source on a line of its own.
pub open spec fn image_caption_spec(source: Seq<char>, alt: Seq<char>) -> Seq<char> {
    (if remote_source(source) {
        "[remote image omitted] "@
    } else {
        "[image] "@
    }) + image_label(alt) + "\n"@ + source
}

/// The text shown for an image block.
pub fn image_caption(source: &str, alt: &str) -> (caption: String)
    ensures
        caption@ == image_caption_spec(source@, alt@),
{
    let mut caption = if is_remote_source(source) {
        "[remote image omitted] ".to_owned()
    } else {
        "[image] ".to_owned()
    };
    let label = trim(alt);
    if label.is_empty() {
        caption.append("image");
    } else {
        caption.append(label);
    }
    caption.append("\n");
    caption.append(source);
    caption
}

/// The text that a block shows: an image's caption, nothing for a rule, else its text.
pub open spec fn visible_text(block: BlockModel) -> Seq<char> {
    match block.kind {
        BlockKindModel::Image { source, alt } => image_caption_spec(source, alt),
        BlockKindModel::Rule => Seq::empty(),
        _ => block.text,
    }
}

/// The line feed code unit that separates blocks.
pub const BLOCK_SEPARATOR: u16 = 0x0A;

/// The text before the last block's text: the earlier blocks and, if there are any, a
/// line feed.
pub open spec fn text_before_last(blocks: Seq<BlockModel>) -> Seq<u16>
    decreases blocks.len(), 0int,
{
    if blocks.len() <= 1 {
        Seq::empty()
    } else {
        layout_text(blocks.drop_last()).push(BLOCK_SEPARATOR)
    }
}

/// The document text: the blocks' visible texts in UTF-16, separated by line feeds.
pub open spec fn layout_text(blocks: Seq<BlockModel>) -> Seq<u16>
    decreases blocks.len(), 1int,
{
    if blocks.len() == 0 {
        Seq::empty()
    } else {
        text_before_last(blocks) + utf16_encode(visible_text(blocks.last()))
    }
}

/// Where each block's text lies in the document text: `(start, length)` in code units.
pub open spec fn layout_ranges(blocks: Seq<BlockModel>) -> Seq<(u32, u32)>
    decreases blocks.len(),
{
    if blocks.len() == 0 {
        Seq::empty()
    } else {
        layout_ranges(blocks.drop_last()).push(
            (
                text_before_last(blocks).len() as u32,
                utf16_encode(visible_text(blocks.last())).len() as u32,
            ),
        )
    }
}

/// Whether the text of block `i` holds position `p`, its end included.
pub open spec fn block_holds(m: LayoutModel, i: int, p: int) -> bool {
    m.ranges[i].0 <= p <= m.ranges[i].0 + m.ranges[i].1
}

/// `position` clamped to the end of the text.
pub open spec fn clamped(position: u32, m: LayoutModel) -> int {
    if position <= m.text.len() { position as int } else { m.text.len() as int }
}

/// The mathematical value of a `LayoutDocument`.
pub struct LayoutModel {
    pub text: Seq<u16>,
    pub ranges: Seq<(u32, u32)>,
}

/// The text of a laid-out document and the place of each block's text in it.
pub struct LayoutDocument {
    plain_text: Vec<u16>,
    ranges: Vec<(u32, u32)>,
}

impl View for LayoutDocument {
    type V = LayoutModel;

    closed spec fn view(&self) -> LayoutModel {
        LayoutModel { text: self.plain_text@, ranges: self.ranges@ }
    }
}

/// The laid-out value of a document's blocks: their text and where each block lies in it.
pub open spec fn layout_model(blocks: Seq<BlockModel>) -> LayoutModel {
    LayoutModel { text: layout_text(blocks), ranges: layout_ranges(blocks) }
}

/// The text selected between two positions, in either order, clamped to the text.
pub open spec fn selected_units(m: LayoutModel, anchor: u32, active: u32) -> Seq<u16> {
    let (start, end) = normalized_range_spec(anchor, active, m.text.len() as u32);
    m.text.subrange(start as int, end as int)
}

/// Whether a selection `start..end` made before a reload is kept: it lies within the new
/// text and covers the same text as before.
pub open spec fn selection_kept(m: LayoutModel, start: u32, end: u32, previous: Seq<u16>) -> bool {
    end <= m.text.len() && selected_units(m, start, end) == previous
}

/// The ranges lie within the text, and positions in it fit in 32 bits.
pub open spec fn layout_well_formed(m: LayoutModel) -> bool {
    &&& m.text.len() <= u32::MAX
    &&& forall|i: int|
        0 <= i < m.ranges.len() ==> #[trigger] m.ranges[i].0 + m.ranges[i].1 <= m.text.len()
}

proof fn lemma_layout_ranges(blocks: Seq<BlockModel>)
    requires
        layout_text(blocks).len() <= u32::MAX,
    ensures
        layout_ranges(blocks).len() == blocks.len(),
        forall|i: int|
            0 <= i < blocks.len() ==> #[trigger] layout_ranges(blocks)[i].0 + layout_ranges(blocks)[i].1
                <= layout_text(blocks).len(),
    decreases blocks.len(),
{
    if blocks.len() > 0 {
        let rest = blocks.drop_last();
        if blocks.len() > 1 {
            assert(layout_text(blocks).len() >= layout_text(rest).len());
        }
        lemma_layout_ranges(rest);
        let ranges = layout_ranges(blocks);
        assert forall|i: int| 0 <= i < blocks.len() implies #[trigger] ranges[i].0 + ranges[i].1
            <= layout_text(blocks).len() by {
            if i < rest.len() {
                assert(ranges[i] == layout_ranges(rest)[i]);
            }
        }
    }
}

/// Copying a block copies what it shows: the document text at a block's range is that
/// block's visible text in UTF-16, and blocks are separated by single line feeds.
pub proof fn lemma_block_text_at_range(blocks: Seq<BlockModel>, i: int)
    requires
        layout_text(blocks).len() <= u32::MAX,
        0 <= i < blocks.len(),
    ensures
        layout_text(blocks).subrange(
            layout_ranges(blocks)[i].0 as int,
            layout_ranges(blocks)[i].0 + layout_ranges(blocks)[i].1,
        ) == utf16_encode(visible_text(blocks[i])),
        i > 0 ==> layout_ranges(blocks)[i].0 >= 1,
        i > 0 ==> layout_text(blocks)[layout_ranges(blocks)[i].0 - 1] == BLOCK_SEPARATOR,
    decreases blocks.len(),
{
    let rest = blocks.drop_last();
    let before = text_before_last(blocks);
    let last = utf16_encode(visible_text(blocks.last()));
    assert(layout_text(blocks) == before + last);
    if i == blocks.len() - 1 {
        if blocks.len() > 1 {
            assert(before == layout_text(rest).push(BLOCK_SEPARATOR));
        }
        lemma_layout_ranges(rest);
        assert(layout_ranges(blocks)[i] == (before.len() as u32, last.len() as u32));
        assert((before + last).subrange(before.len() as int, (before.len() + last.len()) as int) =~= last);
        if i > 0 {
            assert(before == layout_text(rest).push(BLOCK_SEPARATOR));
            assert((before + last)[before.len() - 1] == before[before.len() - 1]);
        }
    } else {
        assert(before == layout_text(rest).push(BLOCK_SEPARATOR));
        lemma_layout_ranges(rest);
        lemma_block_text_at_range(rest, i);
        assert(layout_ranges(blocks)[i] == layout_ranges(rest)[i]);
        let (start, length) = layout_ranges(rest)[i];
        assert((before + last).subrange(start as int, start + length) =~= layout_text(rest).subrange(
            start as int,
            start + length,
        ));
        assert(blocks[i] == rest[i]);
        if i > 0 {
            assert((before + last)[start - 1] == layout_text(rest)[start - 1]);
        }
    }
}

/// The visible texts of the blocks.
pub open spec fn visible_texts(blocks: Seq<BlockModel>) -> Seq<Seq<char>> {
    blocks.map_values(|b: BlockModel| visible_text(b))
}

/// The document text is the blocks' visible texts joined by line feeds, in UTF-16.
pub proof fn lemma_layout_text_is_join(blocks: Seq<BlockModel>)
    ensures
        layout_text(blocks) == utf16_encode(join_spec(visible_texts(blocks), "\n"@)),
    decreases blocks.len(),
{
    reveal_strlit("\n");
    let parts = visible_texts(blocks);
    if blocks.len() == 1 {
        assert(utf16_encode(Seq::<char>::empty()) =~= Seq::<u16>::empty());
        assert(layout_text(blocks) =~= utf16_encode(visible_text(blocks.last())));
    } else if blocks.len() > 1 {
        let rest = blocks.drop_last();
        lemma_layout_text_is_join(rest);
        assert(visible_texts(rest) =~= parts.drop_last());
        let head = join_spec(parts.drop_last(), "\n"@);
        let last = visible_text(blocks.last());
        crate::text::lemma_utf16_encode_concat(head + "\n"@, last);
        crate::text::lemma_utf16_encode_concat(head, "\n"@);
        assert("\n"@ =~= seq!['\n']);
        assert(utf16_encode(seq!['\n']) =~= seq![0x0Au16]) by {
            assert(seq!['\n'].drop_last() =~= Seq::<char>::empty());
            assert(seq!['\n'].last() == '\n');
            assert(('\n' as u32) == 10);
            assert(utf16_encode(Seq::<char>::empty()) =~= Seq::<u16>::empty());
            assert(crate::text::utf16_units('\n') =~= seq![0x0Au16]);
        }
        assert(layout_text(blocks) =~= layout_text(rest).push(BLOCK_SEPARATOR) + utf16_encode(last));
    }
}

/// Where block `i`'s text starts in the document text: after the texts of the blocks
/// before it, each followed by a line feed.
pub open spec fn block_start(blocks: Seq<BlockModel>, i: int) -> int
    decreases i,
{
    if i <= 0 {
        0
    } else {
        block_start(blocks, i - 1) + utf16_encode(visible_text(blocks[i - 1])).len() + 1
    }
}

proof fn lemma_block_start_prefix(blocks: Seq<BlockModel>, i: int)
    requires
        0 <= i < blocks.len(),
    ensures
        block_start(blocks, i) == block_start(blocks.drop_last(), i),
    decreases i,
{
    if i > 0 {
        lemma_block_start_prefix(blocks, i - 1);
        assert(blocks.drop_last()[i - 1] == blocks[i - 1]);
    }
}

/// There is one range per block: block `i`'s text starts after the texts of the blocks
/// before it, each followed by a line feed, and is as long as its visible text in UTF-16;
/// the document text ends with the last block's text.
pub proof fn lemma_layout_ranges_are_running_sums(blocks: Seq<BlockModel>)
    requires
        layout_text(blocks).len() <= u32::MAX,
    ensures
        layout_ranges(blocks).len() == blocks.len(),
        forall|i: int|
            0 <= i < blocks.len() ==> (#[trigger] layout_ranges(blocks)[i]).0 == block_start(blocks, i)
                && layout_ranges(blocks)[i].1 == utf16_encode(visible_text(blocks[i])).len(),
        blocks.len() > 0 ==> layout_text(blocks).len() == block_start(blocks, blocks.len() - 1)
            + utf16_encode(visible_text(blocks.last())).len(),
    decreases blocks.len(),
{
    let n = blocks.len();
    if n > 0 {
        let rest = blocks.drop_last();
        let last = utf16_encode(visible_text(blocks.last()));
        if n > 1 {
            assert(layout_text(blocks).len() >= layout_text(rest).len());
        }
        lemma_layout_ranges_are_running_sums(rest);
        assert(blocks[n - 1] == blocks.last());
        if n > 1 {
            lemma_block_start_prefix(blocks, n - 2);
            assert(rest.last() == blocks[n - 2]);
            assert(text_before_last(blocks).len() == block_start(blocks, n - 1));
        }
        assert forall|i: int| 0 <= i < n implies (#[trigger] layout_ranges(blocks)[i]).0 == block_start(blocks, i)
            && layout_ranges(blocks)[i].1 == utf16_encode(visible_text(blocks[i])).len() by {
            if i < n - 1 {
                assert(layout_ranges(blocks)[i] == layout_ranges(rest)[i]);
                lemma_block_start_prefix(blocks, i);
                assert(rest[i] == blocks[i]);
            }
        }
    }
}

/// Reloading a file whose text has not changed keeps the selection: the text selected in
/// the document is found again at the same place in the same document laid out anew.
pub proof fn lemma_unchanged_reload_keeps_selection(blocks: Seq<BlockModel>, start: u32, end: u32)
    requires
        layout_text(blocks).len() <= u32::MAX,
        end <= layout_text(blocks).len(),
    ensures
        selection_kept(
            layout_model(blocks),
            start,
            end,
            selected_units(layout_model(blocks), start, end),
        ),
{
}

impl LayoutDocument {
    #[verifier::type_invariant]
    spec fn well_formed(self) -> bool {
        layout_well_formed(self@)
    }

    /// The text of `document` as it is laid out, or `None` when that text is too long for
    /// 32-bit positions.
    pub fn new(document: &Document) -> (layout: Option<LayoutDocument>)
        ensures
            layout is Some <==> layout_text(document@).len() <= u32::MAX,
            layout matches Some(l) ==> l@ == layout_model(document@),
    {
        let ghost blocks = document@;
        let mut plain_text: Vec<u16> = Vec::new();
        let mut ranges: Vec<(u32, u32)> = Vec::new();
        let n = document.blocks.len();
        for i in 0..n
            invariant
                n == blocks.len(),
                blocks == document@,
                plain_text@ == layout_text(blocks.take(i as int)),
                ranges@ == layout_ranges(blocks.take(i as int)),
        {
            let ghost prefix = blocks.take(i + 1);
            assert(prefix.drop_last() =~= blocks.take(i as int));
            assert(prefix.last() == document.blocks@[i as int]@);
            if i > 0 {
                plain_text.push(BLOCK_SEPARATOR);
            }
            assert(plain_text@ =~= text_before_last(prefix));
            let start = plain_text.len();
            let block = &document.blocks[i];
            match &block.kind {
                BlockKind::Rule => {
                    assert(utf16_encode(visible_text(prefix.last())) =~= Seq::<u16>::empty());
                },
                BlockKind::Image { source, alt } => {
                    let caption = image_caption(source.as_str(), alt.as_str());
                    push_utf16(&mut plain_text, caption.as_str());
                },
                _ => {
                    push_utf16(&mut plain_text, block.text.as_str());
                },
            }
            let length = plain_text.len() - start;
            ranges.push((start as u32, length as u32));
            assert(plain_text@ =~= layout_text(prefix));
            assert(ranges@ =~= layout_ranges(prefix));
        }
        assert(blocks.take(n as int) =~= blocks);
        if plain_text.len() > 0xFFFF_FFFF {
            return None;
        }
        proof {
            lemma_layout_ranges(blocks);
        }
        Some(LayoutDocument { plain_text, ranges })
    }

    /// The length of the text in code units.
    pub fn text_len(&self) -> (len: u32)
        ensures
            len == self@.text.len(),
    {
        proof {
            use_type_invariant(self);
        }
        self.plain_text.len() as u32
    }

    /// The selected text between two positions, in either order, clamped to the text.
    pub fn selected_text(&self, anchor: u32, active: u32) -> (selected: Vec<u16>)
        ensures
            selected@ == selected_units(self@, anchor, active),
    {
        let (start, end) = normalized_range(anchor, active, self.text_len());
        vstd::slice::slice_to_vec(slice_subrange(self.plain_text.as_slice(), start as usize, end as usize))
    }

    /// Finds `query` from `start` on (clamped to the text), as `find_utf16` does.
    pub fn find_text(
        &self,
        query: &[u16],
        start: u32,
        forward: bool,
        match_case: bool,
        whole_word: bool,
    ) -> (found: Option<(u32, u32)>)
        requires
            query@.len() <= u32::MAX,
        ensures
            search_outcome(
                self@.text,
                query@,
                if start <= self@.text.len() { start } else { self@.text.len() as u32 },
                forward,
                match_case,
                whole_word,
                found,
            ),
    {
        let len = self.text_len();
        let from = if start <= len {
            start
        } else {
            len
        };
        find_utf16(self.plain_text.as_slice(), query, from, forward, match_case, whole_word)
    }

    /// Whether a selection made before a reload can be kept: it still lies within the
    /// text and covers the same text as before.
    pub fn keeps_selection(&self, start: u32, end: u32, previous: &[u16]) -> (keep: bool)
        ensures
            keep == selection_kept(self@, start, end, previous@),
    {
        proof {
            use_type_invariant(self);
        }
        if end > self.text_len() {
            return false;
        }
        let selected = self.selected_text(start, end);
        let ghost range = normalized_range_spec(start, end, self@.text.len() as u32);
        assert(selected@ == self@.text.subrange(range.0 as int, range.1 as int));
        if selected.len() != previous.len() {
            assert(selected@ != previous@);
            return false;
        }
        for i in 0..selected.len()
            invariant
                selected@.len() == previous@.len(),
                selected@ == self@.text.subrange(range.0 as int, range.1 as int),
                range == normalized_range_spec(start, end, self@.text.len() as u32),
                end <= self@.text.len(),
                forall|j: int| 0 <= j < i ==> selected@[j] == previous@[j],
        {
            if selected[i] != previous[i] {
                assert(selected@[i as int] != previous@[i as int]);
                assert(selected@ != previous@);
                return false;
            }
        }
        assert(selected@ =~= previous@);
        true
    }

    /// The number of blocks.
    pub fn block_count(&self) -> (count: usize)
        ensures
            count == self@.ranges.len(),
    {
        self.ranges.len()
    }

    /// Where the text of block `index` lies: `(start, length)`.
    pub fn block_range(&self, index: usize) -> (range: (u32, u32))
        requires
            index < self@.ranges.len(),
        ensures
            range == self@.ranges[index as int],
            range.0 + range.1 <= self@.text.len(),
            self@.text.len() <= u32::MAX,
    {
        proof {
            use_type_invariant(self);
        }
        self.ranges[index]
    }

    /// The text of block `index`, in UTF-16.
    pub fn block_units(&self, index: usize) -> (units: Vec<u16>)
        requires
            index < self@.ranges.len(),
        ensures
            units@ == self@.text.subrange(
                self@.ranges[index as int].0 as int,
                self@.ranges[index as int].0 + self@.ranges[index as int].1,
            ),
    {
        let (start, length) = self.block_range(index);
        vstd::slice::slice_to_vec(
            slice_subrange(self.plain_text.as_slice(), start as usize, (start + length) as usize),
        )
    }

    /// The first block whose text holds `position` (clamped to the text), with the
    /// position within that block.
    pub fn position_block(&self, position: u32) -> (found: Option<(usize, u32)>)
        ensures
            found is None <==> forall|i: int|
                0 <= i < self@.ranges.len() ==> !#[trigger] block_holds(self@, i, clamped(position, self@)),
            found matches Some((i, local)) ==> i < self@.ranges.len(),
            found matches Some((i, local)) ==> block_holds(self@, i as int, clamped(position, self@)),
            found matches Some((i, local)) ==> local == clamped(position, self@) - self@.ranges[i as int].0,
            found matches Some((i, local)) ==> forall|j: int|
                0 <= j < i ==> !#[trigger] block_holds(self@, j, clamped(position, self@)),
    {
        proof {
            use_type_invariant(self);
        }
        let len = self.text_len();
        let p = if position <= len {
            position
        } else {
            len
        };
        let n = self.ranges.len();
        for i in 0..n
            invariant
                n == self@.ranges.len(),
                layout_well_formed(self@),
                p == clamped(position, self@),
                forall|j: int| 0 <= j < i ==> !#[trigger] block_holds(self@, j, p as int),
        {
            let (start, length) = self.ranges[i];
            assert(self@.ranges[i as int].0 + self@.ranges[i as int].1 <= self@.text.len());
            if start <= p && p <= start + length {
                assert(block_holds(self@, i as int, p as int));
                assert(i < self@.ranges.len());
                assert(!(forall|k: int| 0 <= k < self@.ranges.len() ==> !#[trigger] block_holds(self@, k, p as int)));
                return Some((i, p - start));
            }
        }
        None
    }

    /// The sentence around `position` (a position within block `index`), as a range of the
    /// document text.
    pub fn block_sentence(&self, index: usize, position: u32) -> (range: Option<(u32, u32)>)
        requires
            index < self@.ranges.len(),
        ensures
            ({
                let (start, length) = self@.ranges[index as int];
                let units = self@.text.subrange(start as int, start + length);
                range == match sentence_range_spec(units, position) {
                    Some((s, e)) => Some(((start + s) as u32, (start + e) as u32)),
                    None => None::<(u32, u32)>,
                }
            }),
    {
        let (start, length) = self.block_range(index);
        let units = slice_subrange(self.plain_text.as_slice(), start as usize, (start + length) as usize);
        match sentence_range_utf16(units, position) {
            Some((s, e)) => {
                proof {
                    crate::sentence::lemma_sentence_range_shape(units@, position);
                }
                Some((start + s, start + e))
            },
            None => None,
        }
    }

    /// The part of a selection that falls in block `index`: `(offset, length)` within the
    /// block, or `None` when the selection does not reach into it.
    pub fn block_selection(&self, index: usize, selection: (u32, u32)) -> (part: Option<(u32, u32)>)
        requires
            index < self@.ranges.len(),
        ensures
            ({
                let (text_start, text_len) = self@.ranges[index as int];
                let (low, high) = normalized_range_spec(selection.0, selection.1, u32::MAX);
                let start = if low >= text_start { low as int } else { text_start as int };
                let end = if high <= text_start + text_len { high as int } else { text_start + text_len };
                part == if start >= end {
                    None::<(u32, u32)>
                } else {
                    Some(((start - text_start) as u32, (end - start) as u32))
                }
            }),
    {
        let (text_start, text_len) = self.block_range(index);
        let (low, high) = normalized_range(selection.0, selection.1, u32::MAX);
        let text_end = text_start + text_len;
        let start = if low >= text_start {
            low
        } else {
            text_start
        };
        let end = if high <= text_end {
            high
        } else {
            text_end
        };
        if start >= end {
            return None;
        }
        Some((start - text_start, end - start))
    }
}

} // verus!
