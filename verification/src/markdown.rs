//! The document model and the builder that turns Markdown events into it.

use crate::events::{
    heading_levels_valid, markdown_events, markdown_events_of, viewer_options, viewer_options_spec, MarkdownEvent,
    MarkdownTag, MarkdownTagEnd,
};
use crate::markdown_spec::{
    advanced, cell_written, end_tag, in_table_cell, label_style, start_tag, step, table_row_block,
    table_row_text, appended, finished, initial_model, opened_draft, text_block_kind, written,
    append_model, blocks_model, document_model, draft_model, finish_blocks, kept_len, run_events,
    clamped_spans, clamp_span, without_line_ends, lemma_kept_len_bound, blocks_well_formed,
    lemma_document_well_formed, lemma_document_runs_in_order, events_units, block_runs_in_order, destination_text, seq_ends_with,
    shown_destination, ImageModel, ParseModel, TableModel,
};
use crate::text::{append_joined, chars_of, decimal_string, string_views, trim, utf16_len, utf16_len32};
use vstd::prelude::*;
use vstd::string::{StrSliceExecFns, StringExecFns};

verus! {

/// Inline emphasis that applies to a run of text.
#[derive(Clone, Copy, Debug, PartialEq, Eq, Structural)]
pub struct TextStyle {
    pub bold: bool,
    pub italic: bool,
    pub code: bool,
    pub strike: bool,
    pub link: bool,
}

/// The style with no emphasis at all.
pub open spec fn plain_style() -> TextStyle {
    TextStyle { bold: false, italic: false, code: false, strike: false, link: false }
}

impl Default for TextStyle {
    fn default() -> (style: Self)
        ensures
            style == plain_style(),
    {
        TextStyle { bold: false, italic: false, code: false, strike: false, link: false }
    }
}

/// A styled run of a block's text, in UTF-16 code units.
#[derive(Clone, Copy, Debug, PartialEq, Eq, Structural)]
pub struct StyleSpan {
    pub start: u32,
    pub length: u32,
    pub style: TextStyle,
}

/// What a block of the document is.
#[derive(Clone, Debug, PartialEq, Eq)]
pub enum BlockKind {
    Paragraph,
    Heading(u8),
    Quote,
    ListItem { depth: usize },
    Code,
    Rule,
    TableRow { header: bool },
    Image { source: String, alt: String },
}

/// The mathematical value of a `BlockKind`.
pub enum BlockKindModel {
    Paragraph,
    Heading(u8),
    Quote,
    ListItem { depth: usize },
    Code,
    Rule,
    TableRow { header: bool },
    Image { source: Seq<char>, alt: Seq<char> },
}

impl View for BlockKind {
    type V = BlockKindModel;

    open spec fn view(&self) -> BlockKindModel {
        match self {
            BlockKind::Paragraph => BlockKindModel::Paragraph,
            BlockKind::Heading(level) => BlockKindModel::Heading(*level),
            BlockKind::Quote => BlockKindModel::Quote,
            BlockKind::ListItem { depth } => BlockKindModel::ListItem { depth: *depth },
            BlockKind::Code => BlockKindModel::Code,
            BlockKind::Rule => BlockKindModel::Rule,
            BlockKind::TableRow { header } => BlockKindModel::TableRow { header: *header },
            BlockKind::Image { source, alt } => BlockKindModel::Image { source: source@, alt: alt@ },
        }
    }
}

/// One block of the document: its kind, its text and the styled runs of that text.
#[derive(Clone, Debug, PartialEq, Eq)]
pub struct Block {
    pub kind: BlockKind,
    pub text: String,
    pub spans: Vec<StyleSpan>,
}

/// The mathematical value of a `Block`.
pub struct BlockModel {
    pub kind: BlockKindModel,
    pub text: Seq<char>,
    pub spans: Seq<StyleSpan>,
}

impl View for Block {
    type V = BlockModel;

    open spec fn view(&self) -> BlockModel {
        BlockModel { kind: self.kind@, text: self.text@, spans: self.spans@ }
    }
}

/// A parsed Markdown document: its blocks in reading order.
#[derive(Clone, Debug, PartialEq, Eq)]
pub struct Document {
    pub blocks: Vec<Block>,
}

impl View for Document {
    type V = Seq<BlockModel>;

    open spec fn view(&self) -> Seq<BlockModel> {
        blocks_model(self.blocks@)
    }
}

impl Default for Document {
    fn default() -> (document: Self)
        ensures
            document@ == Seq::<BlockModel>::empty(),
    {
        let document = Document { blocks: Vec::new() };
        assert(document@ =~= Seq::<BlockModel>::empty());
        document
    }
}

/// The state of one open list.
#[derive(Clone, Copy)]
pub struct ListState {
    pub ordered: bool,
    pub next: u64,
}

/// The block under construction.
pub struct Draft {
    pub kind: BlockKind,
    pub text: String,
    pub spans: Vec<StyleSpan>,
}

/// The mathematical value of a `Draft`.
pub struct DraftModel {
    pub kind: BlockKindModel,
    pub text: Seq<char>,
    pub spans: Seq<StyleSpan>,
}

impl View for Draft {
    type V = DraftModel;

    open spec fn view(&self) -> DraftModel {
        DraftModel { kind: self.kind@, text: self.text@, spans: self.spans@ }
    }
}

impl Draft {
    pub fn new(kind: BlockKind) -> (draft: Self)
        ensures
            draft@ == (DraftModel { kind: kind@, text: Seq::empty(), spans: Seq::empty() }),
    {
        Draft { kind, text: String::new(), spans: Vec::new() }
    }

    /// Appends `value` in `style`; a styled run that continues the previous run of the
    /// same style extends it.
    pub fn append(&mut self, value: &str, style: TextStyle)
        ensures
            final(self)@ == append_model(old(self)@, value@, style),
    {
        if value.is_empty() {
            return;
        }
        let start = utf16_len(self.text.as_str());
        self.text.append(value);
        let length = utf16_len(value);
        if length == 0 || style == TextStyle::default() {
            return;
        }
        let n = self.spans.len();
        if n > 0 {
            let last = self.spans[n - 1];
            if last.style == style && last.start.wrapping_add(last.length) == start {
                self.spans.set(
                    n - 1,
                    StyleSpan {
                        start: last.start,
                        length: last.length.wrapping_add(length),
                        style: last.style,
                    },
                );
                return;
            }
        }
        self.spans.push(StyleSpan { start, length, style });
    }
}

/// Closes the draft, if any: trailing line breaks are dropped, runs are clipped to the
/// remaining text and empty runs removed; the block is kept when it has text or is code.
pub fn finish(draft: &mut Option<Draft>, blocks: &mut Vec<Block>)
    ensures
        final(draft).is_none(),
        blocks_model(final(blocks)@) == finish_blocks(draft_model(*old(draft)), blocks_model(old(blocks)@)),
{
    let current = match draft.take() {
        Some(current) => current,
        None => {
            return;
        },
    };
    let ghost model = current@;
    let chars = chars_of(current.text.as_str());
    let mut keep: usize = 0;
    for i in 0..chars.len()
        invariant
            chars@ == model.text,
            keep == kept_len(chars@.take(i as int)),
    {
        assert(chars@.take(i + 1).drop_last() =~= chars@.take(i as int));
        if chars[i] != '\r' && chars[i] != '\n' {
            keep = i + 1;
        }
    }
    assert(chars@.take(chars@.len() as int) =~= chars@);
    proof { lemma_kept_len_bound(model.text); }
    let text = current.text.as_str().substring_char(0, keep).to_owned();
    assert(text@ =~= without_line_ends(model.text));
    let text_len = utf16_len(text.as_str());
    let mut spans: Vec<StyleSpan> = Vec::new();
    for i in 0..current.spans.len()
        invariant
            current.spans@ == model.spans,
            spans@ == clamped_spans(model.spans.take(i as int), text_len),
    {
        assert(model.spans.take(i + 1).drop_last() =~= model.spans.take(i as int));
        let span = current.spans[i];
        let limit: u32 = if text_len > span.start {
            text_len - span.start
        } else {
            0
        };
        let length: u32 = if span.length < limit {
            span.length
        } else {
            limit
        };
        assert(length == clamp_span(span, text_len).length);
        if length > 0 {
            spans.push(StyleSpan { start: span.start, length, style: span.style });
        }
    }
    assert(model.spans.take(model.spans.len() as int) =~= model.spans);
    let keep_block = !text.as_str().is_empty() || matches!(current.kind, BlockKind::Code);
    if keep_block {
        let ghost before = blocks@;
        blocks.push(Block { kind: current.kind, text, spans });
        assert(blocks_model(blocks@) =~= blocks_model(before).push(blocks@.last()@));
    }
}


/// The view of an optional string.
pub open spec fn text_model(text: Option<String>) -> Option<Seq<char>> {
    match text {
        Some(t) => Some(t@),
        None => None,
    }
}

/// Opens a running-text draft unless one is open; it starts with the pending item prefix.
pub fn ensure_draft(
    draft: &mut Option<Draft>,
    lists: &[ListState],
    quote_depth: usize,
    pending_item_prefix: &mut Option<String>,
)
    ensures
        old(draft).is_some() ==> draft_model(*final(draft)) == draft_model(*old(draft))
            && text_model(*final(pending_item_prefix)) == text_model(*old(pending_item_prefix)),
        old(draft).is_none() ==> draft_model(*final(draft)) == Some(
            opened_draft(text_block_kind(lists@, quote_depth as nat), text_model(*old(pending_item_prefix))),
        ) && text_model(*final(pending_item_prefix)) == None::<Seq<char>>,
{
    if draft.is_some() {
        return;
    }
    let kind = if lists.len() > 0 {
        BlockKind::ListItem { depth: lists.len() }
    } else if quote_depth > 0 {
        BlockKind::Quote
    } else {
        BlockKind::Paragraph
    };
    let mut next = Draft::new(kind);
    match pending_item_prefix.take() {
        Some(prefix) => next.append(prefix.as_str(), TextStyle::default()),
        None => {},
    }
    *draft = Some(next);
}

/// Appends a line break to the open draft, if any.
pub fn append_break(draft: &mut Option<Draft>, value: &str)
    ensures
        draft_model(*final(draft)) == match draft_model(*old(draft)) {
            Some(d) => Some(append_model(d, value@, plain_style())),
            None => None,
        },
{
    match draft.take() {
        Some(mut current) => {
            current.append(value, TextStyle::default());
            *draft = Some(current);
        },
        None => {},
    }
}

/// The cells of the table row being read.
pub struct TableState {
    pub header: bool,
    pub row: Vec<String>,
    pub cell: Option<String>,
}

impl View for TableState {
    type V = TableModel;

    open spec fn view(&self) -> TableModel {
        TableModel { header: self.header, row: string_views(self.row@), cell: text_model(self.cell) }
    }
}

/// An image whose alternative text is being read.
pub struct ImageState {
    pub source: String,
    pub alt: String,
}

impl View for ImageState {
    type V = ImageModel;

    open spec fn view(&self) -> ImageModel {
        ImageModel { source: self.source@, alt: self.alt@ }
    }
}

/// The view of an optional table.
pub open spec fn table_model(table: Option<TableState>) -> Option<TableModel> {
    match table {
        Some(t) => Some(t@),
        None => None,
    }
}

/// The view of an optional image.
pub open spec fn image_model(image: Option<ImageState>) -> Option<ImageModel> {
    match image {
        Some(i) => Some(i@),
        None => None,
    }
}

/// Turns Markdown events into blocks, one event at a time.
struct DocumentBuilder {
    blocks: Vec<Block>,
    draft: Option<Draft>,
    style: TextStyle,
    lists: Vec<ListState>,
    pending_item_prefix: Option<String>,
    quote_depth: usize,
    table: Option<TableState>,
    image: Option<ImageState>,
    link: Option<String>,
}

impl View for DocumentBuilder {
    type V = ParseModel;

    closed spec fn view(&self) -> ParseModel {
        ParseModel {
            blocks: blocks_model(self.blocks@),
            draft: draft_model(self.draft),
            style: self.style,
            lists: self.lists@,
            pending: text_model(self.pending_item_prefix),
            quote_depth: self.quote_depth as nat,
            table: table_model(self.table),
            image: image_model(self.image),
            link: text_model(self.link),
        }
    }
}

impl DocumentBuilder {
    fn new() -> (builder: Self)
        ensures
            builder@ == initial_model(),
    {
        let builder = DocumentBuilder {
            blocks: Vec::new(),
            draft: None,
            style: TextStyle::default(),
            lists: Vec::new(),
            pending_item_prefix: None,
            quote_depth: 0,
            table: None,
            image: None,
            link: None,
        };
        assert(builder@.blocks =~= Seq::<BlockModel>::empty());
        builder
    }

    fn finish_draft(&mut self)
        ensures
            final(self)@ == finished(old(self)@),
    {
        finish(&mut self.draft, &mut self.blocks);
    }

    fn push_block(&mut self, block: Block)
        ensures
            final(self)@ == (ParseModel { blocks: old(self)@.blocks.push(block@), ..old(self)@ }),
    {
        let ghost before = self.blocks@;
        self.blocks.push(block);
        assert(blocks_model(self.blocks@) =~= blocks_model(before).push(block@));
    }

    /// Writes inline content, opening a running-text draft if none is open.
    fn write(&mut self, value: &str, style: TextStyle)
        ensures
            final(self)@ == written(old(self)@, value@, style),
    {
        ensure_draft(&mut self.draft, self.lists.as_slice(), self.quote_depth, &mut self.pending_item_prefix);
        self.append(value, style);
    }

    /// Appends to the open draft, if any.
    fn append(&mut self, value: &str, style: TextStyle)
        ensures
            final(self)@ == appended(old(self)@, value@, style),
    {
        match self.draft.take() {
            Some(mut current) => {
                current.append(value, style);
                self.draft = Some(current);
            },
            None => {},
        }
    }
}


impl DocumentBuilder {
    /// Whether the text of a table cell is being read.
    fn in_table_cell(&self) -> (b: bool)
        ensures
            b == in_table_cell(self@),
    {
        match &self.table {
            Some(t) => t.cell.is_some(),
            None => false,
        }
    }

    /// Adds `value` to the open table cell.
    fn write_cell(&mut self, value: &str)
        ensures
            final(self)@ == cell_written(old(self)@, value@),
    {
        match self.table.take() {
            Some(mut t) => {
                match t.cell.take() {
                    Some(mut c) => {
                        c.append(value);
                        t.cell = Some(c);
                    },
                    None => {},
                }
                self.table = Some(t);
            },
            None => {},
        }
    }

    /// Shows a closed link's destination after its text, as `shown_destination` says.
    fn show_destination(&mut self, url: &str)
        ensures
            final(self)@ == shown_destination(old(self)@, url@),
    {
        if url.is_empty() || self.image.is_some() {
            return;
        }
        let mut shown = " (".to_owned();
        shown.append(url);
        shown.append(")");
        assert(shown@ =~= destination_text(url@));
        if self.in_table_cell() {
            let ends = match &self.table {
                Some(t) => match &t.cell {
                    Some(c) => ends_with_text(c.as_str(), url),
                    None => false,
                },
                None => false,
            };
            if !ends {
                self.write_cell(shown.as_str());
            }
            return;
        }
        let ends = match &self.draft {
            Some(d) => ends_with_text(d.text.as_str(), url),
            None => false,
        };
        if !ends {
            let style = self.style;
            self.write(shown.as_str(), style);
        }
    }

    /// The block of a table row with the cells read so far.
    fn table_row(header: bool, row: &Vec<String>) -> (block: Block)
        ensures
            block@ == table_row_block(header, string_views(row@)),
    {
        let mut text = "│ ".to_owned();
        append_joined(&mut text, row, " │ ");
        text.append(" │");
        let block = Block { kind: BlockKind::TableRow { header }, text, spans: Vec::new() };
        assert(block@.text =~= table_row_text(string_views(row@)));
        assert(block@.spans =~= Seq::<StyleSpan>::empty());
        block
    }

    #[verifier::rlimit(40)]
    fn start_tag(&mut self, tag: &MarkdownTag)
        requires
            old(self).quote_depth < usize::MAX,
        ensures
            final(self)@ == start_tag(old(self)@, *tag),
    {
        match tag {
            MarkdownTag::Paragraph => {
                if self.table.is_none() && self.image.is_none() {
                    self.finish_draft();
                    ensure_draft(
                        &mut self.draft,
                        self.lists.as_slice(),
                        self.quote_depth,
                        &mut self.pending_item_prefix,
                    );
                }
            },
            MarkdownTag::Heading(level) => {
                self.finish_draft();
                self.draft = Some(Draft::new(BlockKind::Heading(*level)));
            },
            MarkdownTag::BlockQuote => {
                self.quote_depth = self.quote_depth + 1;
            },
            MarkdownTag::CodeBlock(language) => {
                self.finish_draft();
                let mut next = Draft::new(BlockKind::Code);
                match language {
                    Some(language) => {
                        if !language.as_str().is_empty() {
                            let mut label = trim(language.as_str()).to_owned();
                            label.append("\n\n");
                            next.append(label.as_str(), italic_style());
                        }
                    },
                    None => {},
                }
                self.draft = Some(next);
            },
            MarkdownTag::List(start) => {
                let next = match start {
                    Some(n) => *n,
                    None => 1,
                };
                self.lists.push(ListState { ordered: start.is_some(), next });
            },
            MarkdownTag::Item => {
                self.finish_draft();
                let n = self.lists.len();
                if n > 0 {
                    let last = self.lists[n - 1];
                    let ghost lists = self.lists@;
                    if last.ordered {
                        let mut prefix = decimal_string(last.next);
                        prefix.append(".  ");
                        self.pending_item_prefix = Some(prefix);
                        self.lists.set(n - 1, ListState { ordered: true, next: last.next.wrapping_add(1) });
                    } else {
                        self.pending_item_prefix = Some("•  ".to_owned());
                        assert(lists.update(n - 1, advanced(last)) =~= lists);
                    }
                }
            },
            MarkdownTag::Table => {
                let table = TableState { header: false, row: Vec::new(), cell: None };
                assert(string_views(table.row@) =~= Seq::<Seq<char>>::empty());
                self.table = Some(table);
            },
            MarkdownTag::TableHead => {
                match self.table.take() {
                    Some(mut t) => {
                        t.header = true;
                        t.row.clear();
                        assert(string_views(t.row@) =~= Seq::<Seq<char>>::empty());
                        self.table = Some(t);
                    },
                    None => {},
                }
            },
            MarkdownTag::TableRow => {
                match self.table.take() {
                    Some(mut t) => {
                        t.row.clear();
                        assert(string_views(t.row@) =~= Seq::<Seq<char>>::empty());
                        self.table = Some(t);
                    },
                    None => {},
                }
            },
            MarkdownTag::TableCell => {
                match self.table.take() {
                    Some(mut t) => {
                        t.cell = Some(String::new());
                        self.table = Some(t);
                    },
                    None => {},
                }
            },
            MarkdownTag::Emphasis => {
                self.style = TextStyle { italic: true, ..self.style };
            },
            MarkdownTag::Strong => {
                self.style = TextStyle { bold: true, ..self.style };
            },
            MarkdownTag::Strikethrough => {
                self.style = TextStyle { strike: true, ..self.style };
            },
            MarkdownTag::Link(url) => {
                self.style = TextStyle { link: true, ..self.style };
                self.link = Some(url.clone());
            },
            MarkdownTag::Image(url) => {
                self.finish_draft();
                self.image = Some(ImageState { source: url.clone(), alt: String::new() });
            },
            _ => {},
        }
    }

    fn end_tag(&mut self, tag: MarkdownTagEnd)
        ensures
            final(self)@ == end_tag(old(self)@, tag),
    {
        match tag {
            MarkdownTagEnd::Paragraph | MarkdownTagEnd::Heading | MarkdownTagEnd::CodeBlock => {
                self.finish_draft();
            },
            MarkdownTagEnd::BlockQuote => {
                self.quote_depth = if self.quote_depth > 0 {
                    self.quote_depth - 1
                } else {
                    0
                };
            },
            MarkdownTagEnd::List => {
                self.finish_draft();
                let ghost lists = self.lists@;
                let _ = self.lists.pop();
                assert(lists.len() > 0 ==> self.lists@ =~= lists.drop_last());
            },
            MarkdownTagEnd::Item => {
                self.finish_draft();
            },
            MarkdownTagEnd::TableHead => {
                match self.table.take() {
                    Some(mut t) => {
                        let row = DocumentBuilder::table_row(true, &t.row);
                        self.push_block(row);
                        t.header = false;
                        self.table = Some(t);
                    },
                    None => {},
                }
            },
            MarkdownTagEnd::TableCell => {
                match self.table.take() {
                    Some(mut t) => {
                        match t.cell.take() {
                            Some(cell) => {
                                let ghost row = t.row@;
                                t.row.push(trim(cell.as_str()).to_owned());
                                assert(string_views(t.row@) =~= string_views(row).push(
                                    crate::text::trim_spec(cell@),
                                ));
                            },
                            None => {},
                        }
                        self.table = Some(t);
                    },
                    None => {},
                }
            },
            MarkdownTagEnd::TableRow => {
                match self.table.take() {
                    Some(t) => {
                        let row = DocumentBuilder::table_row(t.header, &t.row);
                        self.push_block(row);
                        self.table = Some(t);
                    },
                    None => {},
                }
            },
            MarkdownTagEnd::Table => {
                self.table = None;
            },
            MarkdownTagEnd::Emphasis => {
                self.style = TextStyle { italic: false, ..self.style };
            },
            MarkdownTagEnd::Strong => {
                self.style = TextStyle { bold: false, ..self.style };
            },
            MarkdownTagEnd::Strikethrough => {
                self.style = TextStyle { strike: false, ..self.style };
            },
            MarkdownTagEnd::Link => {
                self.style = TextStyle { link: false, ..self.style };
                match self.link.take() {
                    Some(url) => self.show_destination(url.as_str()),
                    None => {},
                }
            },
            MarkdownTagEnd::Image => {
                match self.image.take() {
                    Some(image) => {
                        let block = Block {
                            kind: BlockKind::Image { source: image.source, alt: image.alt },
                            text: String::new(),
                            spans: Vec::new(),
                        };
                        assert(block@.spans =~= Seq::<StyleSpan>::empty());
                        self.push_block(block);
                    },
                    None => {},
                }
            },
            _ => {},
        }
    }

    /// Feeds one event to the builder.
    fn step(&mut self, event: &MarkdownEvent)
        requires
            old(self).quote_depth < usize::MAX,
        ensures
            final(self)@ == step(old(self)@, *event),
            final(self).quote_depth <= old(self).quote_depth + 1,
    {
        match event {
            MarkdownEvent::Start(tag) => self.start_tag(tag),
            MarkdownEvent::End(tag) => self.end_tag(*tag),
            MarkdownEvent::Text(value) => {
                match self.image.take() {
                    Some(mut image) => {
                        image.alt.append(value.as_str());
                        self.image = Some(image);
                    },
                    None => {
                        if self.in_table_cell() {
                            self.write_cell(value.as_str());
                        } else {
                            let style = self.style;
                            self.write(value.as_str(), style);
                        }
                    },
                }
            },
            MarkdownEvent::Code(value) => {
                if self.in_table_cell() {
                    self.write_cell(value.as_str());
                } else {
                    let style = TextStyle { code: true, ..self.style };
                    self.write(value.as_str(), style);
                }
            },
            MarkdownEvent::InlineMath(value) => {
                let style = TextStyle { code: true, ..self.style };
                self.write(value.as_str(), style);
            },
            MarkdownEvent::DisplayMath(value) => {
                let style = TextStyle { code: true, ..self.style };
                self.write(value.as_str(), style);
            },
            MarkdownEvent::Html(value) => {
                let style = TextStyle { code: true, ..self.style };
                self.write(value.as_str(), style);
            },
            MarkdownEvent::InlineHtml(value) => {
                let style = TextStyle { code: true, ..self.style };
                self.write(value.as_str(), style);
            },
            MarkdownEvent::FootnoteReference(value) => {
                let mut reference = "[".to_owned();
                reference.append(value.as_str());
                reference.append("]");
                let style = self.style;
                self.write(reference.as_str(), style);
            },
            MarkdownEvent::SoftBreak => append_break(&mut self.draft, " "),
            MarkdownEvent::HardBreak => append_break(&mut self.draft, "\n"),
            MarkdownEvent::Rule => {
                self.finish_draft();
                let block = Block { kind: BlockKind::Rule, text: String::new(), spans: Vec::new() };
                assert(block@.spans =~= Seq::<StyleSpan>::empty());
                self.push_block(block);
            },
            MarkdownEvent::TaskListMarker(checked) => {
                let style = self.style;
                if *checked {
                    self.write("☑ ", style);
                } else {
                    self.write("☐ ", style);
                }
            },
        }
    }
}

/// Whether `text` ends with `suffix`.
fn ends_with_text(text: &str, suffix: &str) -> (b: bool)
    ensures
        b == seq_ends_with(text@, suffix@),
{
    let t = chars_of(text);
    let s = chars_of(suffix);
    if s.len() > t.len() {
        return false;
    }
    let n = s.len();
    let offset = t.len() - n;
    let mut i: usize = 0;
    while i < n
        invariant
            t@ == text@,
            s@ == suffix@,
            n == s@.len(),
            i <= n,
            offset + n == t.len(),
            t.len() == t@.len(),
            forall|j: int| 0 <= j < i ==> t@[offset + j] == s@[j],
        decreases n - i,
    {
        if t[offset + i] != s[i] {
            assert(t@.subrange(offset as int, t@.len() as int)[i as int] != s@[i as int]);
            return false;
        }
        i += 1;
    }
    assert(t@.subrange(offset as int, t@.len() as int) =~= s@);
    true
}

/// The style of a code block's language label.
fn italic_style() -> (style: TextStyle)
    ensures
        style == label_style(),
{
    TextStyle { bold: false, italic: true, code: false, strike: false, link: false }
}

/// Builds the document that a stream of Markdown events describes.
pub fn document_from_events(events: &Vec<MarkdownEvent>) -> (document: Document)
    ensures
        document@ == document_model(events@),
{
    let mut builder = DocumentBuilder::new();
    let n = events.len();
    for i in 0..n
        invariant
            n == events@.len(),
            builder@ == run_events(events@.take(i as int)),
            builder.quote_depth <= i,
    {
        assert(events@.take(i + 1).drop_last() =~= events@.take(i as int));
        builder.step(&events[i]);
    }
    assert(events@.take(n as int) =~= events@);
    builder.finish_draft();
    Document { blocks: builder.blocks }
}

proof fn well_formed_document(events: Seq<MarkdownEvent>, blocks: Seq<BlockModel>)
    requires
        blocks == document_model(events),
        events.len() <= usize::MAX,
        heading_levels_valid(events),
    ensures
        blocks_well_formed(blocks),
        events_units(events) <= u32::MAX ==> forall|i: int|
            0 <= i < blocks.len() ==> block_runs_in_order(#[trigger] blocks[i]),
{
    lemma_document_well_formed(events);
    if events_units(events) <= u32::MAX {
        lemma_document_runs_in_order(events);
    }
}

/// Parses Markdown into a document of styled blocks.
pub fn parse(markdown: &str) -> (document: Document)
    ensures
        document@ == document_model(markdown_events_of(markdown@, viewer_options_spec())),
        blocks_well_formed(document@),
        events_units(markdown_events_of(markdown@, viewer_options_spec())) <= u32::MAX ==> forall|i: int|
            0 <= i < document@.len() ==> block_runs_in_order(#[trigger] document@[i]),
{
    let events = markdown_events(markdown, viewer_options());
    let count = events.len();
    let document = document_from_events(&events);
    proof {
        assert(events@.len() == count);
        well_formed_document(events@, document@);
    }
    document
}

} // verus!
