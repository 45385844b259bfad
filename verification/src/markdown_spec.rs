//! What the document builder computes, as spec functions over the event stream.

use crate::events::{heading_levels_valid, MarkdownEvent, MarkdownTag, MarkdownTagEnd};
use crate::markdown::{
    plain_style, Block, BlockKindModel, BlockModel, Draft, DraftModel, ListState, StyleSpan, TextStyle,
};
use crate::text::{decimal_spec, join_spec, low32, trim_spec, utf16_count, utf16_len32};
use vstd::prelude::*;

verus! {

/// 32-bit addition that wraps around.
pub open spec fn add32(a: u32, b: u32) -> u32 {
    low32(a + b)
}

/// 64-bit addition that wraps around.
pub open spec fn add64(a: u64, b: u64) -> u64 {
    ((a + b) % 0x1_0000_0000_0000_0000) as u64
}

/// The views of a list of blocks.
pub open spec fn blocks_model(blocks: Seq<Block>) -> Seq<BlockModel> {
    blocks.map_values(|b: Block| b@)
}

/// The view of an optional draft.
pub open spec fn draft_model(draft: Option<Draft>) -> Option<DraftModel> {
    match draft {
        Some(d) => Some(d@),
        None => None,
    }
}

/// Whether the last run of `spans` has `style` and ends where `start` begins.
pub open spec fn extends_last_span(spans: Seq<StyleSpan>, start: u32, style: TextStyle) -> bool {
    &&& spans.len() > 0
    &&& spans.last().style == style
    &&& add32(spans.last().start, spans.last().length) == start
}

/// The draft after appending `value` in `style`.
pub open spec fn append_model(d: DraftModel, value: Seq<char>, style: TextStyle) -> DraftModel {
    if value.len() == 0 {
        d
    } else {
        let start = utf16_len32(d.text);
        let length = utf16_len32(value);
        let text = d.text + value;
        if length == 0 || style == plain_style() {
            DraftModel { kind: d.kind, text, spans: d.spans }
        } else if extends_last_span(d.spans, start, style) {
            let last = d.spans.last();
            let extended = StyleSpan { start: last.start, length: add32(last.length, length), style: last.style };
            DraftModel { kind: d.kind, text, spans: d.spans.update(d.spans.len() - 1, extended) }
        } else {
            DraftModel { kind: d.kind, text, spans: d.spans.push(StyleSpan { start, length, style }) }
        }
    }
}

/// Whether `c` ends a line.
pub open spec fn is_line_end(c: char) -> bool {
    c == '\r' || c == '\n'
}

/// The length of `t` without its trailing line-end characters.
pub open spec fn kept_len(t: Seq<char>) -> nat
    decreases t.len(),
{
    if t.len() == 0 {
        0
    } else if is_line_end(t.last()) {
        kept_len(t.drop_last())
    } else {
        t.len()
    }
}

pub(crate) proof fn lemma_kept_len_bound(t: Seq<char>)
    ensures
        kept_len(t) <= t.len(),
    decreases t.len(),
{
    if t.len() > 0 {
        lemma_kept_len_bound(t.drop_last());
    }
}

/// `t` without its trailing line-end characters.
pub open spec fn without_line_ends(t: Seq<char>) -> Seq<char> {
    t.take(kept_len(t) as int)
}

/// `span` cut to a text of `text_len` code units.
pub open spec fn clamp_span(span: StyleSpan, text_len: u32) -> StyleSpan {
    let limit: u32 = if text_len > span.start { (text_len - span.start) as u32 } else { 0 };
    StyleSpan {
        start: span.start,
        length: if span.length < limit { span.length } else { limit },
        style: span.style,
    }
}

/// The runs cut to a text of `text_len` code units, without those left empty.
pub open spec fn clamped_spans(spans: Seq<StyleSpan>, text_len: u32) -> Seq<StyleSpan>
    decreases spans.len(),
{
    if spans.len() == 0 {
        Seq::empty()
    } else {
        let rest = clamped_spans(spans.drop_last(), text_len);
        let last = clamp_span(spans.last(), text_len);
        if last.length > 0 {
            rest.push(last)
        } else {
            rest
        }
    }
}

/// The block that a draft becomes when it is closed.
pub open spec fn finished_block(d: DraftModel) -> BlockModel {
    let text = without_line_ends(d.text);
    BlockModel { kind: d.kind, text, spans: clamped_spans(d.spans, utf16_len32(text)) }
}

/// Whether a closed draft is kept as a block.
pub open spec fn keeps_block(d: DraftModel) -> bool {
    without_line_ends(d.text).len() > 0 || d.kind is Code
}

/// The blocks after closing `draft`.
pub open spec fn finish_blocks(draft: Option<DraftModel>, blocks: Seq<BlockModel>) -> Seq<BlockModel> {
    match draft {
        Some(d) => if keeps_block(d) {
            blocks.push(finished_block(d))
        } else {
            blocks
        },
        None => blocks,
    }
}

/// The rows and the open cell of a table.
pub struct TableModel {
    pub header: bool,
    pub row: Seq<Seq<char>>,
    pub cell: Option<Seq<char>>,
}

/// An image whose alternative text is being collected.
pub struct ImageModel {
    pub source: Seq<char>,
    pub alt: Seq<char>,
}

/// The state of the document builder.
pub struct ParseModel {
    pub blocks: Seq<BlockModel>,
    pub draft: Option<DraftModel>,
    pub style: TextStyle,
    pub lists: Seq<ListState>,
    pub pending: Option<Seq<char>>,
    pub quote_depth: nat,
    pub table: Option<TableModel>,
    pub image: Option<ImageModel>,
    /// The destination of the open link.
    pub link: Option<Seq<char>>,
}

/// The builder before the first event.
pub open spec fn initial_model() -> ParseModel {
    ParseModel {
        blocks: Seq::empty(),
        draft: None,
        style: plain_style(),
        lists: Seq::empty(),
        pending: None,
        quote_depth: 0,
        table: None,
        image: None,
        link: None,
    }
}

/// An empty draft of `kind`.
pub open spec fn empty_draft(kind: BlockKindModel) -> DraftModel {
    DraftModel { kind, text: Seq::empty(), spans: Seq::empty() }
}

/// The kind of a running-text block: a list item inside lists, a quote inside quotes.
pub open spec fn text_block_kind(lists: Seq<ListState>, quote_depth: nat) -> BlockKindModel {
    if lists.len() > 0 {
        BlockKindModel::ListItem { depth: lists.len() as usize }
    } else if quote_depth > 0 {
        BlockKindModel::Quote
    } else {
        BlockKindModel::Paragraph
    }
}

/// A new running-text draft that starts with the pending item prefix, if any.
pub open spec fn opened_draft(kind: BlockKindModel, pending: Option<Seq<char>>) -> DraftModel {
    match pending {
        Some(prefix) => append_model(empty_draft(kind), prefix, plain_style()),
        None => empty_draft(kind),
    }
}

/// The builder after closing its draft.
pub open spec fn finished(m: ParseModel) -> ParseModel {
    ParseModel { blocks: finish_blocks(m.draft, m.blocks), draft: None, ..m }
}

/// The builder with a running-text draft opened, unless one is open.
pub open spec fn ensured(m: ParseModel) -> ParseModel {
    if m.draft is Some {
        m
    } else {
        ParseModel {
            draft: Some(opened_draft(text_block_kind(m.lists, m.quote_depth), m.pending)),
            pending: None,
            ..m
        }
    }
}

/// The builder after appending `value` in `style` to the open draft, if any.
pub open spec fn appended(m: ParseModel, value: Seq<char>, style: TextStyle) -> ParseModel {
    match m.draft {
        Some(d) => ParseModel { draft: Some(append_model(d, value, style)), ..m },
        None => m,
    }
}

/// The builder after writing inline content: a draft is opened if needed.
pub open spec fn written(m: ParseModel, value: Seq<char>, style: TextStyle) -> ParseModel {
    appended(ensured(m), value, style)
}

/// `style` with code formatting.
pub open spec fn code_style(style: TextStyle) -> TextStyle {
    TextStyle { code: true, ..style }
}

/// The italic style of a code block's language label.
pub open spec fn label_style() -> TextStyle {
    TextStyle { italic: true, ..plain_style() }
}

/// The draft of a code block, which starts with the fenced language as a label.
pub open spec fn code_draft(language: Option<String>) -> DraftModel {
    match language {
        Some(l) => if l@.len() > 0 {
            append_model(empty_draft(BlockKindModel::Code), trim_spec(l@) + "\n\n"@, label_style())
        } else {
            empty_draft(BlockKindModel::Code)
        },
        None => empty_draft(BlockKindModel::Code),
    }
}

/// The prefix written before a list item's text.
pub open spec fn item_prefix(list: ListState) -> Seq<char> {
    if list.ordered {
        decimal_spec(list.next as nat) + ".  "@
    } else {
        "•  "@
    }
}

/// The list after numbering one more item.
pub open spec fn advanced(list: ListState) -> ListState {
    if list.ordered {
        ListState { ordered: true, next: add64(list.next, 1) }
    } else {
        list
    }
}

/// The builder at the start of a list item.
pub open spec fn started_item(m: ParseModel) -> ParseModel {
    let f = finished(m);
    if f.lists.len() > 0 {
        let last = f.lists.last();
        ParseModel {
            pending: Some(item_prefix(last)),
            lists: f.lists.update(f.lists.len() - 1, advanced(last)),
            ..f
        }
    } else {
        f
    }
}

/// The text of a table row: its cells between box-drawing separators.
pub open spec fn table_row_text(row: Seq<Seq<char>>) -> Seq<char> {
    "│ "@ + join_spec(row, " │ "@) + " │"@
}

/// A table row block.
pub open spec fn table_row_block(header: bool, row: Seq<Seq<char>>) -> BlockModel {
    BlockModel {
        kind: BlockKindModel::TableRow { header },
        text: table_row_text(row),
        spans: Seq::empty(),
    }
}

/// A block without text.
pub open spec fn bare_block(kind: BlockKindModel) -> BlockModel {
    BlockModel { kind, text: Seq::empty(), spans: Seq::empty() }
}

/// The builder after an opening tag.
pub open spec fn start_tag(m: ParseModel, tag: MarkdownTag) -> ParseModel {
    match tag {
        MarkdownTag::Paragraph => if m.table is None && m.image is None {
            let f = finished(m);
            ParseModel {
                draft: Some(opened_draft(text_block_kind(f.lists, f.quote_depth), f.pending)),
                pending: None,
                ..f
            }
        } else {
            m
        },
        MarkdownTag::Heading(level) => ParseModel {
            draft: Some(empty_draft(BlockKindModel::Heading(level))),
            ..finished(m)
        },
        MarkdownTag::BlockQuote => ParseModel { quote_depth: m.quote_depth + 1, ..m },
        MarkdownTag::CodeBlock(language) => ParseModel { draft: Some(code_draft(language)), ..finished(m) },
        MarkdownTag::List(start) => ParseModel {
            lists: m.lists.push(
                ListState {
                    ordered: start is Some,
                    next: match start {
                        Some(n) => n,
                        None => 1,
                    },
                },
            ),
            ..m
        },
        MarkdownTag::Item => started_item(m),
        MarkdownTag::Table => ParseModel {
            table: Some(TableModel { header: false, row: Seq::empty(), cell: None }),
            ..m
        },
        MarkdownTag::TableHead => match m.table {
            Some(t) => ParseModel {
                table: Some(TableModel { header: true, row: Seq::empty(), cell: t.cell }),
                ..m
            },
            None => m,
        },
        MarkdownTag::TableRow => match m.table {
            Some(t) => ParseModel {
                table: Some(TableModel { header: t.header, row: Seq::empty(), cell: t.cell }),
                ..m
            },
            None => m,
        },
        MarkdownTag::TableCell => match m.table {
            Some(t) => ParseModel {
                table: Some(TableModel { header: t.header, row: t.row, cell: Some(Seq::empty()) }),
                ..m
            },
            None => m,
        },
        MarkdownTag::Emphasis => ParseModel { style: TextStyle { italic: true, ..m.style }, ..m },
        MarkdownTag::Strong => ParseModel { style: TextStyle { bold: true, ..m.style }, ..m },
        MarkdownTag::Strikethrough => ParseModel { style: TextStyle { strike: true, ..m.style }, ..m },
        MarkdownTag::Link(url) => ParseModel {
            style: TextStyle { link: true, ..m.style },
            link: Some(url@),
            ..m
        },
        MarkdownTag::Image(url) => ParseModel {
            image: Some(ImageModel { source: url@, alt: Seq::empty() }),
            ..finished(m)
        },
        _ => m,
    }
}

/// The builder after a closing tag.
pub open spec fn end_tag(m: ParseModel, tag: MarkdownTagEnd) -> ParseModel {
    match tag {
        MarkdownTagEnd::Paragraph | MarkdownTagEnd::Heading | MarkdownTagEnd::CodeBlock => finished(m),
        MarkdownTagEnd::BlockQuote => ParseModel {
            quote_depth: if m.quote_depth > 0 { (m.quote_depth - 1) as nat } else { 0 },
            ..m
        },
        MarkdownTagEnd::List => {
            let f = finished(m);
            ParseModel {
                lists: if f.lists.len() > 0 { f.lists.drop_last() } else { f.lists },
                ..f
            }
        },
        MarkdownTagEnd::Item => finished(m),
        MarkdownTagEnd::TableHead => match m.table {
            Some(t) => ParseModel {
                blocks: m.blocks.push(table_row_block(true, t.row)),
                table: Some(TableModel { header: false, row: t.row, cell: t.cell }),
                ..m
            },
            None => m,
        },
        MarkdownTagEnd::TableCell => match m.table {
            Some(t) => match t.cell {
                Some(c) => ParseModel {
                    table: Some(TableModel { header: t.header, row: t.row.push(trim_spec(c)), cell: None }),
                    ..m
                },
                None => m,
            },
            None => m,
        },
        MarkdownTagEnd::TableRow => match m.table {
            Some(t) => ParseModel { blocks: m.blocks.push(table_row_block(t.header, t.row)), ..m },
            None => m,
        },
        MarkdownTagEnd::Table => ParseModel { table: None, ..m },
        MarkdownTagEnd::Emphasis => ParseModel { style: TextStyle { italic: false, ..m.style }, ..m },
        MarkdownTagEnd::Strong => ParseModel { style: TextStyle { bold: false, ..m.style }, ..m },
        MarkdownTagEnd::Strikethrough => ParseModel { style: TextStyle { strike: false, ..m.style }, ..m },
        MarkdownTagEnd::Link => {
            let closed = ParseModel { style: TextStyle { link: false, ..m.style }, link: None, ..m };
            match m.link {
                Some(url) => shown_destination(closed, url),
                None => closed,
            }
        },
        MarkdownTagEnd::Image => match m.image {
            Some(i) => ParseModel {
                blocks: m.blocks.push(bare_block(BlockKindModel::Image { source: i.source, alt: i.alt })),
                image: None,
                ..m
            },
            None => m,
        },
        _ => m,
    }
}

/// Whether `t` ends with `s`.
pub open spec fn seq_ends_with(t: Seq<char>, s: Seq<char>) -> bool {
    s.len() <= t.len() && t.subrange(t.len() - s.len(), t.len() as int) == s
}

/// Whether `s` occurs in `t`.
pub open spec fn seq_contains(t: Seq<char>, s: Seq<char>) -> bool {
    exists|i: int| 0 <= i && i + s.len() <= t.len() && #[trigger] t.subrange(i, i + s.len()) == s
}

/// How a link destination is shown after the link text: ` (destination)`.
pub open spec fn destination_text(url: Seq<char>) -> Seq<char> {
    " ("@ + url + ")"@
}

/// The builder after showing a closed link's destination: ` (destination)` is written after
/// the link text, in the open table cell or the open block, unless the text already ends
/// with the destination (as an autolink's does). Nothing is shown for an empty
/// destination or inside an image's alternative text.
pub open spec fn shown_destination(m: ParseModel, url: Seq<char>) -> ParseModel {
    if url.len() == 0 || m.image is Some {
        m
    } else if in_table_cell(m) {
        if seq_ends_with(m.table->0.cell->0, url) {
            m
        } else {
            cell_written(m, destination_text(url))
        }
    } else if m.draft matches Some(d) && seq_ends_with(d.text, url) {
        m
    } else {
        written(m, destination_text(url), m.style)
    }
}

/// Whether the builder collects the text of a table cell.
pub open spec fn in_table_cell(m: ParseModel) -> bool {
    m.table matches Some(t) && t.cell is Some
}

/// The builder with `value` added to the open table cell.
pub open spec fn cell_written(m: ParseModel, value: Seq<char>) -> ParseModel {
    match m.table {
        Some(t) => match t.cell {
            Some(c) => ParseModel {
                table: Some(TableModel { header: t.header, row: t.row, cell: Some(c + value) }),
                ..m
            },
            None => m,
        },
        None => m,
    }
}

/// The builder after one event.
pub open spec fn step(m: ParseModel, event: MarkdownEvent) -> ParseModel {
    match event {
        MarkdownEvent::Start(tag) => start_tag(m, tag),
        MarkdownEvent::End(tag) => end_tag(m, tag),
        MarkdownEvent::Text(v) => match m.image {
            Some(i) => ParseModel { image: Some(ImageModel { source: i.source, alt: i.alt + v@ }), ..m },
            None => if in_table_cell(m) {
                cell_written(m, v@)
            } else {
                written(m, v@, m.style)
            },
        },
        MarkdownEvent::Code(v) => if in_table_cell(m) {
            cell_written(m, v@)
        } else {
            written(m, v@, code_style(m.style))
        },
        MarkdownEvent::InlineMath(v) => written(m, v@, code_style(m.style)),
        MarkdownEvent::DisplayMath(v) => written(m, v@, code_style(m.style)),
        MarkdownEvent::Html(v) => written(m, v@, code_style(m.style)),
        MarkdownEvent::InlineHtml(v) => written(m, v@, code_style(m.style)),
        MarkdownEvent::FootnoteReference(v) => written(m, "["@ + v@ + "]"@, m.style),
        MarkdownEvent::SoftBreak => appended(m, " "@, plain_style()),
        MarkdownEvent::HardBreak => appended(m, "\n"@, plain_style()),
        MarkdownEvent::Rule => {
            let f = finished(m);
            ParseModel { blocks: f.blocks.push(bare_block(BlockKindModel::Rule)), ..f }
        },
        MarkdownEvent::TaskListMarker(checked) => written(
            m,
            if checked { "☑ "@ } else { "☐ "@ },
            m.style,
        ),
    }
}

/// The builder after a sequence of events.
pub open spec fn run_events(events: Seq<MarkdownEvent>) -> ParseModel
    decreases events.len(),
{
    if events.len() == 0 {
        initial_model()
    } else {
        step(run_events(events.drop_last()), events.last())
    }
}

/// The blocks of the document that a sequence of events describes.
pub open spec fn document_model(events: Seq<MarkdownEvent>) -> Seq<BlockModel> {
    let m = run_events(events);
    finish_blocks(m.draft, m.blocks)
}

} // verus!

verus! {

/// A block is well formed when its runs are styled, non-empty and lie within its text, its
/// text does not end with a line break, and its shape fits its kind: rules and images have
/// neither text nor runs, a table row is framed by `│ ` and ` │` and has no runs, headings
/// have levels 1 to 6, list items a depth of at least 1, and every other kind but code has
/// text.
pub open spec fn block_well_formed(b: BlockModel) -> bool {
    &&& forall|i: int|
        0 <= i < b.spans.len() ==> #[trigger] b.spans[i].length > 0 && b.spans[i].start
            + b.spans[i].length <= utf16_len32(b.text) && b.spans[i].style != plain_style()
    &&& b.text.len() > 0 ==> !is_line_end(b.text.last())
    &&& b.text.len() > 0 || b.kind is Code || b.kind is Rule || b.kind is Image
    &&& (b.kind is Rule || b.kind is Image) ==> b.text.len() == 0 && b.spans.len() == 0
    &&& b.kind is TableRow ==> b.spans.len() == 0 && b.text.len() >= 4 && b.text.take(2) == "│ "@
        && b.text.skip(b.text.len() - 2) == " │"@
    &&& b.kind matches BlockKindModel::Heading(level) ==> 1 <= level <= 6
    &&& b.kind matches BlockKindModel::ListItem { depth } ==> depth >= 1
}

/// A draft never becomes a rule, an image or a table row, its heading level and list depth
/// are in range, and its runs are styled.
pub open spec fn draft_ok(d: DraftModel) -> bool {
    &&& !(d.kind is Rule) && !(d.kind is Image) && !(d.kind is TableRow)
    &&& d.kind matches BlockKindModel::Heading(level) ==> 1 <= level <= 6
    &&& d.kind matches BlockKindModel::ListItem { depth } ==> depth >= 1
    &&& forall|i: int| 0 <= i < d.spans.len() ==> #[trigger] d.spans[i].style != plain_style()
}

/// What holds of the builder between events: its blocks are well formed and its draft is
/// fit to become one.
pub open spec fn model_ok(m: ParseModel) -> bool {
    &&& blocks_well_formed(m.blocks)
    &&& m.draft matches Some(d) ==> draft_ok(d)
}

/// Every block of the sequence is well formed.
pub open spec fn blocks_well_formed(blocks: Seq<BlockModel>) -> bool {
    forall|i: int| 0 <= i < blocks.len() ==> block_well_formed(#[trigger] blocks[i])
}

proof fn lemma_clamped_spans_within(spans: Seq<StyleSpan>, text_len: u32)
    ensures
        forall|i: int|
            0 <= i < clamped_spans(spans, text_len).len() ==> #[trigger] clamped_spans(
                spans,
                text_len,
            )[i].length > 0 && clamped_spans(spans, text_len)[i].start + clamped_spans(
                spans,
                text_len,
            )[i].length <= text_len,
        forall|i: int|
            0 <= i < clamped_spans(spans, text_len).len() ==> exists|k: int|
                0 <= k < spans.len() && #[trigger] clamped_spans(spans, text_len)[i].style
                    == spans[k].style,
    decreases spans.len(),
{
    if spans.len() > 0 {
        lemma_clamped_spans_within(spans.drop_last(), text_len);
        let rest = clamped_spans(spans.drop_last(), text_len);
        let last = clamp_span(spans.last(), text_len);
        let all = clamped_spans(spans, text_len);
        assert forall|i: int| 0 <= i < all.len() implies #[trigger] all[i].length > 0 && all[i].start
            + all[i].length <= text_len by {
            if i < rest.len() {
                assert(all[i] == rest[i]);
            } else {
                assert(all[i] == last);
            }
        }
        assert forall|i: int| 0 <= i < all.len() implies exists|k: int|
            0 <= k < spans.len() && #[trigger] all[i].style == spans[k].style by {
            if i < rest.len() {
                assert(all[i] == rest[i]);
                let k = choose|k: int| 0 <= k < spans.drop_last().len() && rest[i].style
                    == spans.drop_last()[k].style;
                assert(spans.drop_last()[k] == spans[k]);
            } else {
                assert(all[i] == last);
                assert(all[i].style == spans[spans.len() - 1].style);
            }
        }
    }
}

proof fn lemma_kept_len_ends(t: Seq<char>)
    ensures
        kept_len(t) > 0 ==> !is_line_end(t[kept_len(t) - 1]),
    decreases t.len(),
{
    if t.len() > 0 && is_line_end(t.last()) {
        lemma_kept_len_ends(t.drop_last());
        lemma_kept_len_bound(t.drop_last());
    }
}

proof fn lemma_finish_well_formed(draft: Option<DraftModel>, blocks: Seq<BlockModel>)
    requires
        blocks_well_formed(blocks),
        draft matches Some(d) ==> draft_ok(d),
    ensures
        blocks_well_formed(finish_blocks(draft, blocks)),
{
    if let Some(d) = draft {
        if keeps_block(d) {
            let b = finished_block(d);
            lemma_kept_len_bound(d.text);
            lemma_kept_len_ends(d.text);
            lemma_clamped_spans_within(d.spans, utf16_len32(b.text));
            assert forall|i: int| 0 <= i < b.spans.len() implies #[trigger] b.spans[i].style
                != plain_style() by {
                let k = choose|k: int| 0 <= k < d.spans.len() && b.spans[i].style == d.spans[k].style;
                assert(d.spans[k].style != plain_style());
            }
            assert(block_well_formed(b));
            assert(forall|i: int|
                0 <= i < blocks.len() ==> finish_blocks(draft, blocks)[i] == blocks[i]);
        }
    }
}

proof fn lemma_table_row_well_formed(header: bool, row: Seq<Seq<char>>)
    ensures
        block_well_formed(table_row_block(header, row)),
{
    reveal_strlit(" │");
    reveal_strlit("│ ");
    let text = table_row_text(row);
    let middle = join_spec(row, " │ "@);
    assert(text == "│ "@ + middle + " │"@);
    assert(text.take(2) =~= "│ "@);
    assert(text.skip(text.len() - 2) =~= " │"@);
    assert(text.last() == (" │"@).last());
}

proof fn lemma_finished_well_formed(m: ParseModel)
    requires
        model_ok(m),
    ensures
        model_ok(finished(m)),
{
    lemma_finish_well_formed(m.draft, m.blocks);
}

proof fn lemma_append_ok(d: DraftModel, value: Seq<char>, style: TextStyle)
    requires
        draft_ok(d),
    ensures
        draft_ok(append_model(d, value, style)),
{
    let a = append_model(d, value, style);
    assert forall|i: int| 0 <= i < a.spans.len() implies #[trigger] a.spans[i].style != plain_style() by {
        if i < d.spans.len() {
            assert(a.spans[i].style == d.spans[i].style);
        }
    }
}

proof fn lemma_ensured_ok(m: ParseModel)
    requires
        model_ok(m),
        m.lists.len() < usize::MAX,
    ensures
        model_ok(ensured(m)),
{
    if m.draft is None {
        let kind = text_block_kind(m.lists, m.quote_depth);
        match m.pending {
            Some(prefix) => lemma_append_ok(empty_draft(kind), prefix, plain_style()),
            None => {},
        }
    }
}

proof fn lemma_written_ok(m: ParseModel, value: Seq<char>, style: TextStyle)
    requires
        model_ok(m),
        m.lists.len() < usize::MAX,
    ensures
        model_ok(written(m, value, style)),
        model_ok(appended(m, value, style)),
{
    lemma_ensured_ok(m);
    if let Some(d) = ensured(m).draft {
        lemma_append_ok(d, value, style);
    }
    if let Some(d) = m.draft {
        lemma_append_ok(d, value, style);
    }
}

proof fn lemma_opened_ok(m: ParseModel)
    requires
        m.lists.len() < usize::MAX,
    ensures
        draft_ok(opened_draft(text_block_kind(m.lists, m.quote_depth), m.pending)),
{
    let kind = text_block_kind(m.lists, m.quote_depth);
    match m.pending {
        Some(prefix) => lemma_append_ok(empty_draft(kind), prefix, plain_style()),
        None => {},
    }
}

proof fn lemma_code_draft_ok(language: Option<String>)
    ensures
        draft_ok(code_draft(language)),
{
    if let Some(l) = language {
        if l@.len() > 0 {
            lemma_append_ok(empty_draft(BlockKindModel::Code), trim_spec(l@) + "\n\n"@, label_style());
        }
    }
}

proof fn lemma_push_well_formed(blocks: Seq<BlockModel>, b: BlockModel)
    requires
        blocks_well_formed(blocks),
        block_well_formed(b),
    ensures
        blocks_well_formed(blocks.push(b)),
{
    assert(forall|i: int| 0 <= i < blocks.len() ==> blocks.push(b)[i] == blocks[i]);
}

proof fn lemma_start_tag_ok(m: ParseModel, tag: MarkdownTag)
    requires
        model_ok(m),
        m.lists.len() < usize::MAX,
        tag matches MarkdownTag::Heading(level) ==> 1 <= level <= 6,
    ensures
        model_ok(start_tag(m, tag)),
        start_tag(m, tag).lists.len() <= m.lists.len() + 1,
{
    lemma_finished_well_formed(m);
    match tag {
        MarkdownTag::Paragraph => {
            lemma_opened_ok(finished(m));
        },
        MarkdownTag::CodeBlock(language) => {
            lemma_code_draft_ok(language);
        },
        MarkdownTag::Item => {
            lemma_finished_well_formed(m);
        },
        _ => {},
    }
}

proof fn lemma_end_tag_ok(m: ParseModel, tag: MarkdownTagEnd)
    requires
        model_ok(m),
        m.lists.len() < usize::MAX,
    ensures
        model_ok(end_tag(m, tag)),
        end_tag(m, tag).lists.len() <= m.lists.len(),
{
    lemma_finished_well_formed(m);
    match tag {
        MarkdownTagEnd::TableHead | MarkdownTagEnd::TableRow => {
            if let Some(t) = m.table {
                lemma_table_row_well_formed(true, t.row);
                lemma_table_row_well_formed(t.header, t.row);
                lemma_push_well_formed(m.blocks, table_row_block(true, t.row));
                lemma_push_well_formed(m.blocks, table_row_block(t.header, t.row));
            }
        },
        MarkdownTagEnd::Image => {
            if let Some(i) = m.image {
                lemma_push_well_formed(
                    m.blocks,
                    bare_block(BlockKindModel::Image { source: i.source, alt: i.alt }),
                );
            }
        },
        MarkdownTagEnd::Link => {
            let closed = ParseModel { style: TextStyle { link: false, ..m.style }, link: None, ..m };
            if let Some(url) = m.link {
                lemma_written_ok(closed, destination_text(url), closed.style);
            }
        },
        _ => {},
    }
}

proof fn lemma_step_ok(m: ParseModel, event: MarkdownEvent)
    requires
        model_ok(m),
        m.lists.len() < usize::MAX,
        event matches MarkdownEvent::Start(MarkdownTag::Heading(level)) ==> 1 <= level <= 6,
    ensures
        model_ok(step(m, event)),
        step(m, event).lists.len() <= m.lists.len() + 1,
{
    match event {
        MarkdownEvent::Start(tag) => lemma_start_tag_ok(m, tag),
        MarkdownEvent::End(tag) => lemma_end_tag_ok(m, tag),
        MarkdownEvent::Text(v) => lemma_written_ok(m, v@, m.style),
        MarkdownEvent::Code(v) => lemma_written_ok(m, v@, code_style(m.style)),
        MarkdownEvent::InlineMath(v) => lemma_written_ok(m, v@, code_style(m.style)),
        MarkdownEvent::DisplayMath(v) => lemma_written_ok(m, v@, code_style(m.style)),
        MarkdownEvent::Html(v) => lemma_written_ok(m, v@, code_style(m.style)),
        MarkdownEvent::InlineHtml(v) => lemma_written_ok(m, v@, code_style(m.style)),
        MarkdownEvent::FootnoteReference(v) => lemma_written_ok(m, "["@ + v@ + "]"@, m.style),
        MarkdownEvent::SoftBreak => lemma_written_ok(m, " "@, plain_style()),
        MarkdownEvent::HardBreak => lemma_written_ok(m, "\n"@, plain_style()),
        MarkdownEvent::Rule => {
            lemma_finished_well_formed(m);
            lemma_push_well_formed(finished(m).blocks, bare_block(BlockKindModel::Rule));
        },
        MarkdownEvent::TaskListMarker(checked) => lemma_written_ok(
            m,
            if checked { "☑ "@ } else { "☐ "@ },
            m.style,
        ),
    }
}

proof fn lemma_run_ok(events: Seq<MarkdownEvent>)
    requires
        events.len() <= usize::MAX,
        heading_levels_valid(events),
    ensures
        model_ok(run_events(events)),
        run_events(events).lists.len() <= events.len(),
    decreases events.len(),
{
    if events.len() > 0 {
        let rest = events.drop_last();
        assert forall|i: int| 0 <= i < rest.len() implies (#[trigger] rest[i] matches MarkdownEvent::Start(
            MarkdownTag::Heading(level),
        ) ==> 1 <= level <= 6) by {
            assert(rest[i] == events[i]);
        }
        lemma_run_ok(rest);
        assert(events[events.len() - 1] == events.last());
        lemma_step_ok(run_events(rest), events.last());
    }
}

/// Every block of a document built from an event stream (one that fits in memory, with
/// heading levels 1 to 6, as the parser yields) is well formed: its runs are styled,
/// non-empty and lie within its text, its text does not end with a line break, rules and
/// images have neither text nor runs, table rows are framed by `│ ` and ` │` without runs,
/// headings have levels 1 to 6 and list items a depth of at least 1, and only code blocks,
/// rules and images may have no text.
pub proof fn lemma_document_well_formed(events: Seq<MarkdownEvent>)
    requires
        events.len() <= usize::MAX,
        heading_levels_valid(events),
    ensures
        blocks_well_formed(document_model(events)),
{
    lemma_run_ok(events);
    lemma_finished_well_formed(run_events(events));
}

/// Raw HTML is kept as literal text: after an HTML event the open block's text ends with
/// the HTML exactly as written.
pub proof fn lemma_html_kept_as_text(m: ParseModel, html: String)
    ensures
        step(m, MarkdownEvent::Html(html)).draft matches Some(d) && d.text.len() >= html@.len()
            && d.text.subrange(d.text.len() - html@.len(), d.text.len() as int) == html@,
{
    let e = ensured(m);
    let d0 = e.draft.unwrap();
    if html@.len() > 0 {
        assert((d0.text + html@).subrange(d0.text.len() as int, (d0.text + html@).len() as int)
            =~= html@);
    } else {
        assert(d0.text.subrange(d0.text.len() as int, d0.text.len() as int) =~= html@);
    }
}

/// A link's destination stays visible: when a link with a non-empty destination closes
/// outside an image's alternative text, the open table cell, or else the open block,
/// holds the destination.
pub proof fn lemma_link_destination_shown(m: ParseModel)
    requires
        m.link matches Some(url) && url.len() > 0,
        m.image is None,
    ensures
        in_table_cell(m) ==> (step(m, MarkdownEvent::End(MarkdownTagEnd::Link)).table matches Some(t)
            && t.cell matches Some(c) && seq_contains(c, m.link->0)),
        !in_table_cell(m) ==> (step(m, MarkdownEvent::End(MarkdownTagEnd::Link)).draft matches Some(d)
            && seq_contains(d.text, m.link->0)),
{
    reveal_strlit(" (");
    reveal_strlit(")");
    let url = m.link->0;
    let closed = ParseModel { style: TextStyle { link: false, ..m.style }, link: None, ..m };
    let shown = destination_text(url);
    assert(shown.subrange(2, 2 + url.len() as int) =~= url);
    if in_table_cell(m) {
        let c = m.table->0.cell->0;
        if seq_ends_with(c, url) {
            assert(c.subrange(c.len() - url.len(), c.len() - url.len() + url.len()) == url);
        } else {
            let k: int = c.len() as int + 2;
            assert((c + shown).subrange(k, k + url.len() as int) =~= url);
        }
    } else if closed.draft is Some && seq_ends_with(closed.draft->0.text, url) {
        let t = closed.draft->0.text;
        assert(t.subrange(t.len() - url.len(), t.len() - url.len() + url.len()) == url);
    } else {
        let d0 = ensured(closed).draft->0;
        let k: int = d0.text.len() as int + 2;
        assert((d0.text + shown).subrange(k, k + url.len() as int) =~= url);
        assert(append_model(d0, shown, closed.style).text == d0.text + shown);
    }
}

/// The end of a run, in code units.
pub open spec fn run_end(span: StyleSpan) -> int {
    span.start + span.length
}

/// The runs of a draft are in order: each is styled and non-empty and ends within the
/// text, each ends before the next begins, and two neighbouring runs of one style never
/// touch (they would have been one run).
pub open spec fn runs_in_order(d: DraftModel) -> bool {
    &&& forall|i: int|
        0 <= i < d.spans.len() ==> #[trigger] d.spans[i].length > 0 && d.spans[i].style
            != plain_style() && run_end(d.spans[i]) <= utf16_count(d.text)
    &&& forall|i: int, j: int| 0 <= i < j < d.spans.len() ==> run_end(#[trigger] d.spans[i]) <= #[trigger] d.spans[j].start
    &&& forall|i: int|
        0 < i < d.spans.len() ==> !(d.spans[i - 1].style == #[trigger] d.spans[i].style && run_end(
            d.spans[i - 1],
        ) == d.spans[i].start)
}

/// Appending text keeps the runs in order, as long as the text's length fits in 32 bits:
/// a styled append that continues the last run of its style extends that run, and any
/// other styled append starts a new run at the end of the text.
pub proof fn lemma_append_keeps_runs_in_order(d: DraftModel, value: Seq<char>, style: TextStyle)
    requires
        runs_in_order(d),
        utf16_count(d.text) + utf16_count(value) <= u32::MAX,
    ensures
        runs_in_order(append_model(d, value, style)),
{
    crate::text::lemma_utf16_count_concat(d.text, value);
    let a = append_model(d, value, style);
    if value.len() > 0 {
        let start = utf16_len32(d.text);
        let length = utf16_len32(value);
        assert(start == utf16_count(d.text));
        assert(length == utf16_count(value));
        if length == 0 || style == plain_style() {
        } else if extends_last_span(d.spans, start, style) {
            let n = d.spans.len();
            let last = d.spans.last();
            assert(add32(last.start, last.length) == last.start + last.length);
            assert(add32(last.length, length) == last.length + length);
            assert forall|i: int, j: int| 0 <= i < j < a.spans.len() implies run_end(#[trigger] a.spans[i])
                <= #[trigger] a.spans[j].start by {
                assert(a.spans[i] == d.spans[i]);
                assert(a.spans[j].start == d.spans[j].start);
            }
            assert forall|i: int| 0 < i < a.spans.len() implies !(a.spans[i - 1].style
                == #[trigger] a.spans[i].style && run_end(a.spans[i - 1]) == a.spans[i].start) by {
                assert(a.spans[i - 1] == d.spans[i - 1]);
                assert(a.spans[i].start == d.spans[i].start && a.spans[i].style == d.spans[i].style);
            }
            assert forall|i: int| 0 <= i < a.spans.len() implies #[trigger] a.spans[i].length > 0
                && a.spans[i].style != plain_style() && run_end(a.spans[i]) <= utf16_count(a.text) by {
                if i < n - 1 {
                    assert(a.spans[i] == d.spans[i]);
                }
            }
        } else {
            let n = d.spans.len();
            let added = StyleSpan { start, length, style };
            assert(a.spans == d.spans.push(added));
            assert forall|i: int, j: int| 0 <= i < j < a.spans.len() implies run_end(#[trigger] a.spans[i])
                <= #[trigger] a.spans[j].start by {
                assert(a.spans[i] == d.spans[i]);
                if j < n {
                    assert(a.spans[j] == d.spans[j]);
                }
            }
            assert forall|i: int| 0 < i < a.spans.len() implies !(a.spans[i - 1].style
                == #[trigger] a.spans[i].style && run_end(a.spans[i - 1]) == a.spans[i].start) by {
                assert(a.spans[i - 1] == d.spans[i - 1]);
                if i < n {
                    assert(a.spans[i] == d.spans[i]);
                } else {
                    assert(d.spans.last() == d.spans[i - 1]);
                    if a.spans[i - 1].style == style && run_end(a.spans[i - 1]) == start {
                        assert(add32(d.spans.last().start, d.spans.last().length) == start);
                        assert(extends_last_span(d.spans, start, style));
                    }
                }
            }
            assert forall|i: int| 0 <= i < a.spans.len() implies #[trigger] a.spans[i].length > 0
                && a.spans[i].style != plain_style() && run_end(a.spans[i]) <= utf16_count(a.text) by {
                if i < n {
                    assert(a.spans[i] == d.spans[i]);
                }
            }
        }
    }
}

proof fn lemma_clamped_prefix(spans: Seq<StyleSpan>, limit: u32)
    requires
        forall|i: int, j: int| 0 <= i < j < spans.len() ==> run_end(#[trigger] spans[i]) <= #[trigger] spans[j].start,
        forall|i: int| 0 <= i < spans.len() ==> #[trigger] spans[i].length > 0,
    ensures
        clamped_spans(spans, limit).len() <= spans.len(),
        forall|k: int|
            0 <= k < clamped_spans(spans, limit).len() ==> #[trigger] clamped_spans(spans, limit)[k]
                == clamp_span(spans[k], limit) && spans[k].start < limit,
        forall|k: int|
            clamped_spans(spans, limit).len() <= k < spans.len() ==> #[trigger] spans[k].start >= limit,
    decreases spans.len(),
{
    if spans.len() > 0 {
        let rest = spans.drop_last();
        assert forall|i: int, j: int| 0 <= i < j < rest.len() implies run_end(#[trigger] rest[i])
            <= #[trigger] rest[j].start by {
            assert(rest[i] == spans[i] && rest[j] == spans[j]);
        }
        assert forall|i: int| 0 <= i < rest.len() implies #[trigger] rest[i].length > 0 by {
            assert(rest[i] == spans[i]);
        }
        lemma_clamped_prefix(rest, limit);
        let r = clamped_spans(rest, limit);
        let last = spans.last();
        let n = spans.len();
        if clamp_span(last, limit).length > 0 {
            assert(last.start < limit);
            if r.len() < rest.len() {
                let k = r.len() as int;
                assert(rest[k].start >= limit);
                assert(rest[k] == spans[k]);
                assert(run_end(spans[k]) <= spans[n - 1].start);
            }
            assert(r.len() == rest.len());
            assert forall|k: int| 0 <= k < clamped_spans(spans, limit).len() implies #[trigger] clamped_spans(
                spans,
                limit,
            )[k] == clamp_span(spans[k], limit) && spans[k].start < limit by {
                if k < r.len() {
                    assert(rest[k] == spans[k]);
                }
            }
        } else {
            assert(last.start >= limit);
            assert forall|k: int| 0 <= k < clamped_spans(spans, limit).len() implies #[trigger] clamped_spans(
                spans,
                limit,
            )[k] == clamp_span(spans[k], limit) && spans[k].start < limit by {
                assert(rest[k] == spans[k]);
            }
            assert forall|k: int| clamped_spans(spans, limit).len() <= k < spans.len() implies #[trigger] spans[k].start
                >= limit by {
                if k < n - 1 {
                    assert(rest[k] == spans[k]);
                }
            }
        }
    }
}

/// The runs of a block are in order, as `runs_in_order` says of a draft.
pub open spec fn block_runs_in_order(b: BlockModel) -> bool {
    runs_in_order(DraftModel { kind: b.kind, text: b.text, spans: b.spans })
}

/// Closing a draft keeps its runs in order, as long as its text's length fits in 32 bits:
/// the block's runs are the draft's runs cut to the text without its trailing line breaks,
/// still styled, non-empty, ordered, and never touching a neighbour of the same style.
pub proof fn lemma_finish_keeps_runs_in_order(d: DraftModel)
    requires
        runs_in_order(d),
        utf16_count(d.text) <= u32::MAX,
    ensures
        block_runs_in_order(finished_block(d)),
{
    let b = finished_block(d);
    let t = d.text;
    lemma_kept_len_bound(t);
    let k = kept_len(t) as int;
    assert(t =~= t.take(k) + t.skip(k));
    crate::text::lemma_utf16_count_concat(t.take(k), t.skip(k));
    let limit = utf16_len32(b.text);
    assert(limit == utf16_count(b.text));
    lemma_clamped_prefix(d.spans, limit);
    let r = b.spans;
    assert forall|i: int| 0 <= i < r.len() implies #[trigger] r[i].length > 0 && r[i].style
        != plain_style() && run_end(r[i]) <= utf16_count(b.text) by {
        assert(r[i] == clamp_span(d.spans[i], limit));
        assert(d.spans[i].length > 0);
    }
    assert forall|i: int, j: int| 0 <= i < j < r.len() implies run_end(#[trigger] r[i]) <= #[trigger] r[j].start by {
        assert(r[i] == clamp_span(d.spans[i], limit));
        assert(r[j] == clamp_span(d.spans[j], limit));
        assert(run_end(d.spans[i]) <= d.spans[j].start);
    }
    assert forall|i: int| 0 < i < r.len() implies !(r[i - 1].style == #[trigger] r[i].style && run_end(
        r[i - 1],
    ) == r[i].start) by {
        assert(r[i - 1] == clamp_span(d.spans[i - 1], limit));
        assert(r[i] == clamp_span(d.spans[i], limit));
        assert(run_end(d.spans[i - 1]) <= d.spans[i].start);
        assert(d.spans[i].start < limit);
    }
}

/// The code units that the builder holds and that may still reach a block: the open
/// draft's text, the pending list-item prefix and the open link's destination text.
pub open spec fn held_units(m: ParseModel) -> nat {
    (match m.draft {
        Some(d) => utf16_count(d.text),
        None => 0,
    }) + (match m.pending {
        Some(p) => utf16_count(p),
        None => 0,
    }) + (match m.link {
        Some(u) => utf16_count(destination_text(u)),
        None => 0,
    })
}

/// A bound on the code units that one event adds to what the builder holds.
pub open spec fn event_units(event: MarkdownEvent) -> nat {
    match event {
        MarkdownEvent::Start(MarkdownTag::CodeBlock(Some(l))) => utf16_count(l@) + 4,
        MarkdownEvent::Start(MarkdownTag::Item) => 64,
        MarkdownEvent::Start(MarkdownTag::Link(url)) => utf16_count(url@) + 6,
        MarkdownEvent::Text(v) => utf16_count(v@),
        MarkdownEvent::Code(v) => utf16_count(v@),
        MarkdownEvent::InlineMath(v) => utf16_count(v@),
        MarkdownEvent::DisplayMath(v) => utf16_count(v@),
        MarkdownEvent::Html(v) => utf16_count(v@),
        MarkdownEvent::InlineHtml(v) => utf16_count(v@),
        MarkdownEvent::FootnoteReference(v) => utf16_count(v@) + 4,
        MarkdownEvent::SoftBreak => 2,
        MarkdownEvent::HardBreak => 2,
        MarkdownEvent::TaskListMarker(_) => 4,
        _ => 0,
    }
}

/// A bound on the code units that a sequence of events puts into blocks.
pub open spec fn events_units(events: Seq<MarkdownEvent>) -> nat
    decreases events.len(),
{
    if events.len() == 0 {
        0
    } else {
        events_units(events.drop_last()) + event_units(events.last())
    }
}

/// The runs of every block are in order, and so are those of the open draft.
pub open spec fn order_ok(m: ParseModel) -> bool {
    &&& forall|i: int| 0 <= i < m.blocks.len() ==> block_runs_in_order(#[trigger] m.blocks[i])
    &&& m.draft matches Some(d) ==> runs_in_order(d)
}

proof fn lemma_destination_units(url: Seq<char>)
    ensures
        utf16_count(destination_text(url)) <= utf16_count(url) + 6,
{
    reveal_strlit(" (");
    reveal_strlit(")");
    crate::text::lemma_utf16_count_concat(" ("@, url);
    crate::text::lemma_utf16_count_concat(" ("@ + url, ")"@);
    crate::text::lemma_count_bound(" ("@);
    crate::text::lemma_count_bound(")"@);
}

proof fn lemma_append_order(d: DraftModel, value: Seq<char>, style: TextStyle)
    requires
        runs_in_order(d),
        utf16_count(d.text) + utf16_count(value) <= u32::MAX,
    ensures
        runs_in_order(append_model(d, value, style)),
        utf16_count(append_model(d, value, style).text) == utf16_count(d.text) + utf16_count(value),
{
    lemma_append_keeps_runs_in_order(d, value, style);
    crate::text::lemma_utf16_count_concat(d.text, value);
    if value.len() == 0 {
        assert(d.text + value =~= d.text);
    }
}

proof fn lemma_push_order(blocks: Seq<BlockModel>, b: BlockModel)
    requires
        forall|i: int| 0 <= i < blocks.len() ==> block_runs_in_order(#[trigger] blocks[i]),
        b.spans.len() == 0,
    ensures
        forall|i: int| 0 <= i < blocks.push(b).len() ==> block_runs_in_order(#[trigger] blocks.push(b)[i]),
{
    assert forall|i: int| 0 <= i < blocks.push(b).len() implies block_runs_in_order(
        #[trigger] blocks.push(b)[i],
    ) by {
        if i < blocks.len() {
            assert(blocks.push(b)[i] == blocks[i]);
        }
    }
}

proof fn lemma_finished_order(m: ParseModel)
    requires
        order_ok(m),
        held_units(m) <= u32::MAX,
    ensures
        order_ok(finished(m)),
        held_units(finished(m)) <= held_units(m),
{
    if let Some(d) = m.draft {
        if keeps_block(d) {
            lemma_finish_keeps_runs_in_order(d);
            let b = finished_block(d);
            assert forall|i: int| 0 <= i < m.blocks.push(b).len() implies block_runs_in_order(
                #[trigger] m.blocks.push(b)[i],
            ) by {
                if i < m.blocks.len() {
                    assert(m.blocks.push(b)[i] == m.blocks[i]);
                }
            }
        }
    }
}

proof fn lemma_ensured_order(m: ParseModel)
    requires
        order_ok(m),
    ensures
        order_ok(ensured(m)),
        held_units(ensured(m)) == held_units(m),
{
    if m.draft is None {
        let kind = text_block_kind(m.lists, m.quote_depth);
        if let Some(prefix) = m.pending {
            crate::text::lemma_utf16_count_concat(Seq::<char>::empty(), prefix);
            assert(Seq::<char>::empty() + prefix =~= prefix);
            let d = opened_draft(kind, prefix_option(prefix));
            assert(d.spans.len() == 0);
        }
    }
}

/// `Some(prefix)`.
spec fn prefix_option(prefix: Seq<char>) -> Option<Seq<char>> {
    Some(prefix)
}

proof fn lemma_appended_order(m: ParseModel, value: Seq<char>, style: TextStyle)
    requires
        order_ok(m),
        held_units(m) + utf16_count(value) <= u32::MAX,
    ensures
        order_ok(appended(m, value, style)),
        held_units(appended(m, value, style)) <= held_units(m) + utf16_count(value),
{
    if let Some(d) = m.draft {
        lemma_append_order(d, value, style);
    }
}

proof fn lemma_written_order(m: ParseModel, value: Seq<char>, style: TextStyle)
    requires
        order_ok(m),
        held_units(m) + utf16_count(value) <= u32::MAX,
    ensures
        order_ok(written(m, value, style)),
        held_units(written(m, value, style)) <= held_units(m) + utf16_count(value),
        order_ok(appended(m, value, style)),
        held_units(appended(m, value, style)) <= held_units(m) + utf16_count(value),
{
    lemma_ensured_order(m);
    lemma_appended_order(ensured(m), value, style);
    lemma_appended_order(m, value, style);
}

proof fn lemma_item_prefix_units(list: ListState)
    ensures
        utf16_count(item_prefix(list)) <= 46,
{
    reveal_strlit("•  ");
    reveal_strlit(".  ");
    crate::text::lemma_count_bound(item_prefix(list));
    if list.ordered {
        crate::text::lemma_decimal_len(list.next);
    }
}

proof fn lemma_code_draft_order(language: Option<String>)
    requires
        language matches Some(l) ==> utf16_count(l@) + 4 <= u32::MAX,
    ensures
        runs_in_order(code_draft(language)),
        utf16_count(code_draft(language).text) <= match language {
            Some(l) => utf16_count(l@) + 4,
            None => 0,
        },
{
    if let Some(l) = language {
        if l@.len() > 0 {
            reveal_strlit("\n\n");
            let label = trim_spec(l@) + "\n\n"@;
            crate::text::lemma_trim_count(l@);
            crate::text::lemma_utf16_count_concat(trim_spec(l@), "\n\n"@);
            crate::text::lemma_count_bound("\n\n"@);
            assert(utf16_count(Seq::<char>::empty()) == 0);
            lemma_append_order(empty_draft(BlockKindModel::Code), label, label_style());
        }
    }
}

#[verifier::spinoff_prover]
#[verifier::rlimit(40)]
proof fn lemma_start_tag_order(m: ParseModel, tag: MarkdownTag)
    requires
        order_ok(m),
        held_units(m) + event_units(MarkdownEvent::Start(tag)) <= u32::MAX,
    ensures
        order_ok(start_tag(m, tag)),
        held_units(start_tag(m, tag)) <= held_units(m) + event_units(MarkdownEvent::Start(tag)),
{
    lemma_finished_order(m);
    match tag {
        MarkdownTag::Paragraph => {
            lemma_ensured_order(finished(m));
        },
        MarkdownTag::CodeBlock(language) => {
            lemma_code_draft_order(language);
        },
        MarkdownTag::Item => {
            let f = finished(m);
            if f.lists.len() > 0 {
                lemma_item_prefix_units(f.lists.last());
            }
        },
        MarkdownTag::Link(url) => {
            lemma_destination_units(url@);
        },
        _ => {},
    }
}

proof fn lemma_end_tag_order(m: ParseModel, tag: MarkdownTagEnd)
    requires
        order_ok(m),
        held_units(m) <= u32::MAX,
    ensures
        order_ok(end_tag(m, tag)),
        held_units(end_tag(m, tag)) <= held_units(m),
{
    lemma_finished_order(m);
    match tag {
        MarkdownTagEnd::TableHead | MarkdownTagEnd::TableRow => {
            if let Some(t) = m.table {
                lemma_push_order(m.blocks, table_row_block(true, t.row));
                lemma_push_order(m.blocks, table_row_block(t.header, t.row));
            }
        },
        MarkdownTagEnd::Image => {
            if let Some(i) = m.image {
                lemma_push_order(m.blocks, bare_block(BlockKindModel::Image { source: i.source, alt: i.alt }));
            }
        },
        MarkdownTagEnd::Link => {
            let closed = ParseModel { style: TextStyle { link: false, ..m.style }, link: None, ..m };
            if let Some(url) = m.link {
                lemma_written_order(closed, destination_text(url), closed.style);
            }
        },
        _ => {},
    }
}

proof fn lemma_step_order(m: ParseModel, event: MarkdownEvent)
    requires
        order_ok(m),
        held_units(m) + event_units(event) <= u32::MAX,
    ensures
        order_ok(step(m, event)),
        held_units(step(m, event)) <= held_units(m) + event_units(event),
{
    reveal_strlit(" ");
    reveal_strlit("\n");
    reveal_strlit("[");
    reveal_strlit("]");
    reveal_strlit("☑ ");
    reveal_strlit("☐ ");
    match event {
        MarkdownEvent::Start(tag) => lemma_start_tag_order(m, tag),
        MarkdownEvent::End(tag) => lemma_end_tag_order(m, tag),
        MarkdownEvent::Text(v) => lemma_written_order(m, v@, m.style),
        MarkdownEvent::Code(v) => lemma_written_order(m, v@, code_style(m.style)),
        MarkdownEvent::InlineMath(v) => lemma_written_order(m, v@, code_style(m.style)),
        MarkdownEvent::DisplayMath(v) => lemma_written_order(m, v@, code_style(m.style)),
        MarkdownEvent::Html(v) => lemma_written_order(m, v@, code_style(m.style)),
        MarkdownEvent::InlineHtml(v) => lemma_written_order(m, v@, code_style(m.style)),
        MarkdownEvent::FootnoteReference(v) => {
            let text = "["@ + v@ + "]"@;
            crate::text::lemma_utf16_count_concat("["@, v@);
            crate::text::lemma_utf16_count_concat("["@ + v@, "]"@);
            crate::text::lemma_count_bound("["@);
            crate::text::lemma_count_bound("]"@);
            lemma_written_order(m, text, m.style);
        },
        MarkdownEvent::SoftBreak => {
            crate::text::lemma_count_bound(" "@);
            lemma_written_order(m, " "@, plain_style());
        },
        MarkdownEvent::HardBreak => {
            crate::text::lemma_count_bound("\n"@);
            lemma_written_order(m, "\n"@, plain_style());
        },
        MarkdownEvent::Rule => {
            lemma_finished_order(m);
            lemma_push_order(finished(m).blocks, bare_block(BlockKindModel::Rule));
        },
        MarkdownEvent::TaskListMarker(checked) => {
            crate::text::lemma_count_bound("☑ "@);
            crate::text::lemma_count_bound("☐ "@);
            lemma_written_order(m, if checked { "☑ "@ } else { "☐ "@ }, m.style);
        },
    }
}

proof fn lemma_run_order(events: Seq<MarkdownEvent>)
    requires
        events_units(events) <= u32::MAX,
    ensures
        order_ok(run_events(events)),
        held_units(run_events(events)) <= events_units(events),
    decreases events.len(),
{
    if events.len() > 0 {
        lemma_run_order(events.drop_last());
        lemma_step_order(run_events(events.drop_last()), events.last());
    }
}

/// The runs of every block of a document are in order — styled, non-empty, inside the
/// text, each ending before the next begins, and never touching a neighbour of the same
/// style — when the text the events put into blocks fits in 32-bit positions.
pub proof fn lemma_document_runs_in_order(events: Seq<MarkdownEvent>)
    requires
        events_units(events) <= u32::MAX,
    ensures
        forall|i: int|
            0 <= i < document_model(events).len() ==> block_runs_in_order(#[trigger] document_model(events)[i]),
{
    let m = run_events(events);
    lemma_run_order(events);
    lemma_finished_blocks_order(m, document_model(events));
}

proof fn lemma_finished_blocks_order(m: ParseModel, blocks: Seq<BlockModel>)
    requires
        order_ok(m),
        held_units(m) <= u32::MAX,
        blocks == finish_blocks(m.draft, m.blocks),
    ensures
        forall|i: int| 0 <= i < blocks.len() ==> block_runs_in_order(#[trigger] blocks[i]),
{
    lemma_finished_order(m);
    assert(finished(m).blocks == blocks);
    assert(order_ok(finished(m)));
}

/// How many block quotes the events open.
pub open spec fn quote_starts(events: Seq<MarkdownEvent>) -> nat
    decreases events.len(),
{
    if events.len() == 0 {
        0
    } else {
        quote_starts(events.drop_last()) + if events.last() == MarkdownEvent::Start(MarkdownTag::BlockQuote) {
            1nat
        } else {
            0nat
        }
    }
}

/// How many block quotes the events close.
pub open spec fn quote_ends(events: Seq<MarkdownEvent>) -> nat
    decreases events.len(),
{
    if events.len() == 0 {
        0
    } else {
        quote_ends(events.drop_last()) + if events.last() == MarkdownEvent::End(MarkdownTagEnd::BlockQuote) {
            1nat
        } else {
            0nat
        }
    }
}

/// Whether no prefix of the events closes more block quotes than it opened, as in the
/// parser's well-nested event stream.
pub open spec fn quotes_nested(events: Seq<MarkdownEvent>) -> bool {
    forall|i: int| 0 <= i <= events.len() ==> quote_ends(#[trigger] events.take(i)) <= quote_starts(events.take(i))
}

/// The quote depth after well-nested events is the number of block quotes open: those
/// opened minus those closed.
pub proof fn lemma_quote_depth_counts_open_quotes(events: Seq<MarkdownEvent>)
    requires
        quotes_nested(events),
    ensures
        run_events(events).quote_depth == quote_starts(events) - quote_ends(events),
    decreases events.len(),
{
    if events.len() > 0 {
        let rest = events.drop_last();
        assert forall|i: int| 0 <= i <= rest.len() implies quote_ends(#[trigger] rest.take(i)) <= quote_starts(
            rest.take(i),
        ) by {
            assert(rest.take(i) =~= events.take(i));
        }
        lemma_quote_depth_counts_open_quotes(rest);
        assert(events.take(events.len() as int) =~= events);
        lemma_step_quote_depth(run_events(rest), events.last());
    }
}

#[verifier::spinoff_prover]
proof fn lemma_step_quote_depth(m: ParseModel, e: MarkdownEvent)
    ensures
        e == MarkdownEvent::Start(MarkdownTag::BlockQuote) ==> step(m, e).quote_depth == m.quote_depth + 1,
        e == MarkdownEvent::End(MarkdownTagEnd::BlockQuote) ==> step(m, e).quote_depth == if m.quote_depth > 0 {
            m.quote_depth - 1
        } else {
            0
        },
        e != MarkdownEvent::Start(MarkdownTag::BlockQuote) && e != MarkdownEvent::End(MarkdownTagEnd::BlockQuote)
            ==> step(m, e).quote_depth == m.quote_depth,
{
    match e {
        MarkdownEvent::Start(tag) => {
            match tag {
                MarkdownTag::Item => {
                    assert(started_item(m).quote_depth == m.quote_depth);
                },
                _ => {},
            }
        },
        MarkdownEvent::End(tag) => {
            match tag {
                MarkdownTagEnd::Link => {
                    let closed = ParseModel { style: TextStyle { link: false, ..m.style }, link: None, ..m };
                    if let Some(url) = m.link {
                        assert(shown_destination(closed, url).quote_depth == m.quote_depth);
                    }
                },
                _ => {},
            }
        },
        _ => {},
    }
}

/// A paragraph that starts once every block quote and list has closed is a plain
/// paragraph, not a quote or a list item.
pub proof fn lemma_paragraph_outside_quotes_is_plain(events: Seq<MarkdownEvent>)
    requires
        quotes_nested(events),
        quote_starts(events) == quote_ends(events),
        run_events(events).lists.len() == 0,
        run_events(events).table is None,
        run_events(events).image is None,
    ensures
        step(run_events(events), MarkdownEvent::Start(MarkdownTag::Paragraph)).draft matches Some(d)
            && d.kind == BlockKindModel::Paragraph,
{
    lemma_quote_depth_counts_open_quotes(events);
}

/// Each inline tag sets the style it names, in any state of the builder, and its closing
/// tag clears only that style: emphasis is italic, strong emphasis bold, strikethrough
/// struck through, and a link a link that remembers its destination.
#[verifier::spinoff_prover]
pub proof fn lemma_style_tags_do_what_they_name(m: ParseModel, url: String)
    ensures
        step(m, MarkdownEvent::Start(MarkdownTag::Emphasis)).style == (TextStyle { italic: true, ..m.style }),
        step(m, MarkdownEvent::End(MarkdownTagEnd::Emphasis)).style == (TextStyle { italic: false, ..m.style }),
        step(m, MarkdownEvent::Start(MarkdownTag::Strong)).style == (TextStyle { bold: true, ..m.style }),
        step(m, MarkdownEvent::End(MarkdownTagEnd::Strong)).style == (TextStyle { bold: false, ..m.style }),
        step(m, MarkdownEvent::Start(MarkdownTag::Strikethrough)).style == (TextStyle { strike: true, ..m.style }),
        step(m, MarkdownEvent::End(MarkdownTagEnd::Strikethrough)).style == (TextStyle {
            strike: false,
            ..m.style
        }),
        step(m, MarkdownEvent::Start(MarkdownTag::Link(url))).style == (TextStyle { link: true, ..m.style }),
        step(m, MarkdownEvent::Start(MarkdownTag::Link(url))).link == Some(url@),
{
}

/// Headings, list items and rules make the blocks they name, in any state of the
/// builder: a heading opens a heading block of its level after closing the open block; an
/// item of an ordered list is numbered with the list's next number followed by `.  `, and
/// the number after it is one more; an item of a bullet list starts with `•  `; a rule
/// adds a rule block after the blocks so far.
#[verifier::spinoff_prover]
#[verifier::rlimit(50)]
pub proof fn lemma_block_tags_do_what_they_name(m: ParseModel, level: u8)
    ensures
        step(m, MarkdownEvent::Start(MarkdownTag::Heading(level))).draft == Some(
            empty_draft(BlockKindModel::Heading(level)),
        ),
        step(m, MarkdownEvent::Start(MarkdownTag::Heading(level))).blocks == finish_blocks(m.draft, m.blocks),
        m.lists.len() > 0 && m.lists.last().ordered ==> step(m, MarkdownEvent::Start(MarkdownTag::Item)).pending
            == Some(decimal_spec(m.lists.last().next as nat) + ".  "@),
        m.lists.len() > 0 && m.lists.last().ordered && m.lists.last().next < u64::MAX ==> step(
            m,
            MarkdownEvent::Start(MarkdownTag::Item),
        ).lists.last().next == m.lists.last().next + 1,
        m.lists.len() > 0 && !m.lists.last().ordered ==> step(m, MarkdownEvent::Start(MarkdownTag::Item)).pending
            == Some("•  "@),
        step(m, MarkdownEvent::Rule).blocks == finish_blocks(m.draft, m.blocks).push(
            bare_block(BlockKindModel::Rule),
        ),
{
    let f = finished(m);
    assert(step(m, MarkdownEvent::Start(MarkdownTag::Heading(level))) == ParseModel {
        draft: Some(empty_draft(BlockKindModel::Heading(level))),
        ..f
    });
    assert(step(m, MarkdownEvent::Start(MarkdownTag::Item)) == started_item(m));
    assert(step(m, MarkdownEvent::Rule) == ParseModel { blocks: f.blocks.push(bare_block(BlockKindModel::Rule)), ..f });
    if m.lists.len() > 0 {
        assert(f.lists == m.lists);
        let last = f.lists.last();
        let after = f.lists.update(f.lists.len() - 1, advanced(last));
        assert(after.last() == advanced(last));
    }
}

/// Breaks and inline markers write what they name: a hard break a line feed and a soft
/// break a space into the open block, a task marker `☑ ` when checked and `☐ ` when not,
/// and inline code its text in code style.
#[verifier::spinoff_prover]
pub proof fn lemma_inline_events_write_what_they_name(m: ParseModel, v: String)
    ensures
        m.draft matches Some(d) ==> step(m, MarkdownEvent::HardBreak).draft == Some(
            append_model(d, "\n"@, plain_style()),
        ),
        m.draft matches Some(d) ==> step(m, MarkdownEvent::SoftBreak).draft == Some(
            append_model(d, " "@, plain_style()),
        ),
        step(m, MarkdownEvent::TaskListMarker(true)) == written(m, "☑ "@, m.style),
        step(m, MarkdownEvent::TaskListMarker(false)) == written(m, "☐ "@, m.style),
        !in_table_cell(m) ==> step(m, MarkdownEvent::Code(v)) == written(
            m,
            v@,
            TextStyle { code: true, ..m.style },
        ),
{
}

} // verus!
