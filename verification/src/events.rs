//! The Markdown event stream, as plain values.
//!
//! `pulldown_cmark` tokenises the source; the document builder in `markdown` reads the
//! events that it yields. This module holds the library's own copy of those events and
//! the one call into the parser.

use pulldown_cmark::Event::{
    Code, DisplayMath, End, FootnoteReference, HardBreak, Html, InlineHtml, InlineMath, Rule, SoftBreak,
    Start, TaskListMarker, Text,
};
use pulldown_cmark::{CodeBlockKind, Event, Options, Parser, Tag, TagEnd};
use vstd::prelude::*;

verus! {

/// The opening tags that the document builder tells apart.
#[derive(Clone, Debug, PartialEq, Eq)]
pub enum MarkdownTag {
    Paragraph,
    /// A heading of level 1 to 6.
    Heading(u8),
    BlockQuote,
    /// A code block; `Some(language)` for a fenced block (the language may be empty).
    CodeBlock(Option<String>),
    /// A list; `Some(start)` for an ordered list.
    List(Option<u64>),
    Item,
    Table,
    TableHead,
    TableRow,
    TableCell,
    Emphasis,
    Strong,
    Strikethrough,
    /// A link with its destination.
    Link(String),
    /// An image with its destination.
    Image(String),
    HtmlBlock,
    /// A footnote definition with its label.
    FootnoteDefinition(String),
    DefinitionList,
    DefinitionListTitle,
    DefinitionListDefinition,
    Superscript,
    Subscript,
    MetadataBlock,
}

/// The closing tags that the document builder tells apart.
#[derive(Clone, Copy, Debug, PartialEq, Eq)]
pub enum MarkdownTagEnd {
    Paragraph,
    Heading,
    BlockQuote,
    CodeBlock,
    List,
    Item,
    Table,
    TableHead,
    TableRow,
    TableCell,
    Emphasis,
    Strong,
    Strikethrough,
    Link,
    Image,
    HtmlBlock,
    FootnoteDefinition,
    DefinitionList,
    DefinitionListTitle,
    DefinitionListDefinition,
    Superscript,
    Subscript,
    MetadataBlock,
}

/// One event of the Markdown event stream.
#[derive(Clone, Debug, PartialEq, Eq)]
pub enum MarkdownEvent {
    Start(MarkdownTag),
    End(MarkdownTagEnd),
    Text(String),
    Code(String),
    InlineMath(String),
    DisplayMath(String),
    Html(String),
    InlineHtml(String),
    FootnoteReference(String),
    SoftBreak,
    HardBreak,
    Rule,
    TaskListMarker(bool),
}

#[verifier::external_type_specification]
#[verifier::external_body]
pub struct ExEvent<'a>(Event<'a>);

#[verifier::external_type_specification]
#[verifier::external_body]
pub struct ExTag<'a>(Tag<'a>);

#[verifier::external_type_specification]
#[verifier::external_body]
pub struct ExTagEnd(TagEnd);

/// The Markdown extensions that the parser recognises.
#[derive(Clone, Copy, Debug, PartialEq, Eq, Structural)]
pub struct MarkdownOptions {
    pub tables: bool,
    pub footnotes: bool,
    pub strikethrough: bool,
    pub task_lists: bool,
    pub gfm: bool,
}

/// The extensions the viewer reads documents with: all of them.
pub open spec fn viewer_options_spec() -> MarkdownOptions {
    MarkdownOptions { tables: true, footnotes: true, strikethrough: true, task_lists: true, gfm: true }
}

/// The extensions the viewer reads documents with: tables, footnotes, strikethrough, task
/// lists and GitHub's extensions.
pub fn viewer_options() -> (options: MarkdownOptions)
    ensures
        options == viewer_options_spec(),
{
    MarkdownOptions { tables: true, footnotes: true, strikethrough: true, task_lists: true, gfm: true }
}

/// The viewer leaves no extension off: tables, footnotes, strikethrough, task lists and
/// GitHub's extensions are all read.
pub proof fn lemma_viewer_reads_every_extension()
    ensures
        viewer_options_spec().tables,
        viewer_options_spec().footnotes,
        viewer_options_spec().strikethrough,
        viewer_options_spec().task_lists,
        viewer_options_spec().gfm,
{
}

/// Whether every heading of the events has a level from 1 to 6.
pub open spec fn heading_levels_valid(events: Seq<MarkdownEvent>) -> bool {
    forall|i: int|
        0 <= i < events.len() ==> (#[trigger] events[i] matches MarkdownEvent::Start(
            MarkdownTag::Heading(level),
        ) ==> 1 <= level <= 6)
}

/// The events that `pulldown_cmark` yields for `markdown` with the given extensions, each
/// as a plain value.
pub uninterp spec fn markdown_events_of(markdown: Seq<char>, options: MarkdownOptions) -> Seq<MarkdownEvent>;

/// Runs `pulldown_cmark::Parser::new_ext` over `markdown` with the extensions that
/// `options` turns on, and collects its events as plain values. The contract claims that
/// the events are a function of the text and the options, named `markdown_events_of`, and
/// that headings have levels 1 to 6 (the values of `pulldown_cmark::HeadingLevel`);
/// CommonMark itself is not restated.
#[verifier::external_body]
pub(crate) fn markdown_events(markdown: &str, options: MarkdownOptions) -> (events: Vec<MarkdownEvent>)
    ensures
        events@ == markdown_events_of(markdown@, options),
        heading_levels_valid(events@),
{
    let mut flags = Options::empty();
    flags.set(Options::ENABLE_TABLES, options.tables);
    flags.set(Options::ENABLE_FOOTNOTES, options.footnotes);
    flags.set(Options::ENABLE_STRIKETHROUGH, options.strikethrough);
    flags.set(Options::ENABLE_TASKLISTS, options.task_lists);
    flags.set(Options::ENABLE_GFM, options.gfm);
    Parser::new_ext(markdown, flags).map(event_value).collect()
}

/// Converts one `pulldown_cmark::Event`, variant for variant.
#[verifier::external_body]
fn event_value(event: Event<'_>) -> MarkdownEvent {
    match event {
        Start(tag) => MarkdownEvent::Start(block_tag_value(tag)),
        End(tag) => MarkdownEvent::End(block_tag_end_value(tag)),
        Text(value) => MarkdownEvent::Text(value.into_string()),
        Code(value) => MarkdownEvent::Code(value.into_string()),
        InlineMath(value) => MarkdownEvent::InlineMath(value.into_string()),
        DisplayMath(value) => MarkdownEvent::DisplayMath(value.into_string()),
        Html(value) => MarkdownEvent::Html(value.into_string()),
        InlineHtml(value) => MarkdownEvent::InlineHtml(value.into_string()),
        FootnoteReference(value) => MarkdownEvent::FootnoteReference(value.into_string()),
        SoftBreak => MarkdownEvent::SoftBreak,
        HardBreak => MarkdownEvent::HardBreak,
        Rule => MarkdownEvent::Rule,
        TaskListMarker(checked) => MarkdownEvent::TaskListMarker(checked),
    }
}

/// Converts the block-level variants of `pulldown_cmark::Tag`, variant for variant, and
/// hands the others to `inline_tag_value`.
#[verifier::external_body]
fn block_tag_value(tag: Tag<'_>) -> MarkdownTag {
    match tag {
        Tag::Paragraph => MarkdownTag::Paragraph,
        Tag::Heading { level, .. } => MarkdownTag::Heading(level as u8),
        Tag::BlockQuote(_) => MarkdownTag::BlockQuote,
        Tag::CodeBlock(CodeBlockKind::Indented) => MarkdownTag::CodeBlock(None),
        Tag::CodeBlock(CodeBlockKind::Fenced(language)) => MarkdownTag::CodeBlock(Some(language.into_string())),
        Tag::List(start) => MarkdownTag::List(start),
        Tag::Item => MarkdownTag::Item,
        Tag::HtmlBlock => MarkdownTag::HtmlBlock,
        Tag::FootnoteDefinition(label) => MarkdownTag::FootnoteDefinition(label.into_string()),
        Tag::MetadataBlock(_) => MarkdownTag::MetadataBlock,
        other => inline_tag_value(other),
    }
}

/// Converts the inline variants of `pulldown_cmark::Tag`, variant for variant, and hands
/// the others to `table_tag_value`.
#[verifier::external_body]
fn inline_tag_value(tag: Tag<'_>) -> MarkdownTag {
    match tag {
        Tag::Emphasis => MarkdownTag::Emphasis,
        Tag::Strong => MarkdownTag::Strong,
        Tag::Strikethrough => MarkdownTag::Strikethrough,
        Tag::Superscript => MarkdownTag::Superscript,
        Tag::Subscript => MarkdownTag::Subscript,
        Tag::Link { dest_url, .. } => MarkdownTag::Link(dest_url.into_string()),
        Tag::Image { dest_url, .. } => MarkdownTag::Image(dest_url.into_string()),
        other => table_tag_value(other),
    }
}

/// Converts the table and definition-list variants of `pulldown_cmark::Tag`, variant for
/// variant, and hands the others to `block_tag_value`.
#[verifier::external_body]
fn table_tag_value(tag: Tag<'_>) -> MarkdownTag {
    match tag {
        Tag::Table(_) => MarkdownTag::Table,
        Tag::TableHead => MarkdownTag::TableHead,
        Tag::TableRow => MarkdownTag::TableRow,
        Tag::TableCell => MarkdownTag::TableCell,
        Tag::DefinitionList => MarkdownTag::DefinitionList,
        Tag::DefinitionListTitle => MarkdownTag::DefinitionListTitle,
        Tag::DefinitionListDefinition => MarkdownTag::DefinitionListDefinition,
        other => block_tag_value(other),
    }
}

/// Converts the block-level variants of `pulldown_cmark::TagEnd`, variant for variant,
/// and hands the others to `inline_tag_end_value`.
#[verifier::external_body]
fn block_tag_end_value(tag: TagEnd) -> MarkdownTagEnd {
    match tag {
        TagEnd::Paragraph => MarkdownTagEnd::Paragraph,
        TagEnd::Heading(_) => MarkdownTagEnd::Heading,
        TagEnd::BlockQuote(_) => MarkdownTagEnd::BlockQuote,
        TagEnd::CodeBlock => MarkdownTagEnd::CodeBlock,
        TagEnd::List(_) => MarkdownTagEnd::List,
        TagEnd::Item => MarkdownTagEnd::Item,
        TagEnd::HtmlBlock => MarkdownTagEnd::HtmlBlock,
        TagEnd::FootnoteDefinition => MarkdownTagEnd::FootnoteDefinition,
        TagEnd::MetadataBlock(_) => MarkdownTagEnd::MetadataBlock,
        other => inline_tag_end_value(other),
    }
}

/// Converts the inline variants of `pulldown_cmark::TagEnd`, variant for variant, and
/// hands the others to `table_tag_end_value`.
#[verifier::external_body]
fn inline_tag_end_value(tag: TagEnd) -> MarkdownTagEnd {
    match tag {
        TagEnd::Emphasis => MarkdownTagEnd::Emphasis,
        TagEnd::Strong => MarkdownTagEnd::Strong,
        TagEnd::Strikethrough => MarkdownTagEnd::Strikethrough,
        TagEnd::Superscript => MarkdownTagEnd::Superscript,
        TagEnd::Subscript => MarkdownTagEnd::Subscript,
        TagEnd::Link => MarkdownTagEnd::Link,
        TagEnd::Image => MarkdownTagEnd::Image,
        other => table_tag_end_value(other),
    }
}

/// Converts the table and definition-list variants of `pulldown_cmark::TagEnd`, variant
/// for variant, and hands the others to `block_tag_end_value`.
#[verifier::external_body]
fn table_tag_end_value(tag: TagEnd) -> MarkdownTagEnd {
    match tag {
        TagEnd::Table => MarkdownTagEnd::Table,
        TagEnd::TableHead => MarkdownTagEnd::TableHead,
        TagEnd::TableRow => MarkdownTagEnd::TableRow,
        TagEnd::TableCell => MarkdownTagEnd::TableCell,
        TagEnd::DefinitionList => MarkdownTagEnd::DefinitionList,
        TagEnd::DefinitionListTitle => MarkdownTagEnd::DefinitionListTitle,
        TagEnd::DefinitionListDefinition => MarkdownTagEnd::DefinitionListDefinition,
        other => block_tag_end_value(other),
    }
}

} // verus!
