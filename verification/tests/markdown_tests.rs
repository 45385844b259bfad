use quietmd::events::{MarkdownEvent, MarkdownTag, MarkdownTagEnd};
use quietmd::markdown::{
    append_break, document_from_events, ensure_draft, finish, parse, Block, BlockKind, Draft, ListState, StyleSpan,
    TextStyle,
};
use quietmd::text::{decimal_string, utf16_len};

#[test]
fn parses_heading_and_inline_styles() {
    let doc = parse("# 見出し\n\n**太字** と `code`");
    assert_eq!(doc.blocks.len(), 2);
    assert_eq!(doc.blocks[0].kind, BlockKind::Heading(1));
    assert_eq!(doc.blocks[0].text, "見出し");
    assert_eq!(doc.blocks[1].text, "太字 と code");
    assert!(doc.blocks[1].spans.iter().any(|span| span.style.bold));
    assert!(doc.blocks[1].spans.iter().any(|span| span.style.code));
}

#[test]
fn parses_lists_and_task_markers() {
    let doc = parse("- first\n- [x] done\n1. one\n2. two");
    assert_eq!(doc.blocks.len(), 4);
    assert_eq!(doc.blocks[0].text, "•  first");
    assert_eq!(doc.blocks[1].text, "•  ☑ done");
    assert_eq!(doc.blocks[2].text, "1.  one");
    assert_eq!(doc.blocks[3].text, "2.  two");
}

#[test]
fn parses_table_rows_and_images() {
    let doc = parse("| A | B |\n|---|---|\n| 1 | 2 |\n\n![alt](image.png)");
    assert!(matches!(doc.blocks[0].kind, BlockKind::TableRow { header: true }));
    assert!(matches!(
        doc.blocks[2].kind,
        BlockKind::Image { ref source, ref alt }
            if source == "image.png" && alt == "alt"
    ));
}

#[test]
fn keeps_inline_code_inside_table_cells() {
    let doc = parse(
        "| GameObject | Timeline |\n|---|---|\n| `Rocket` | RocketTail.playable |\n| `SW_RocketTail` | RocketTail |\n\nAfter",
    );
    assert_eq!(doc.blocks.len(), 4);
    assert_eq!(doc.blocks[1].text, "│ Rocket │ RocketTail.playable │");
    assert_eq!(doc.blocks[2].text, "│ SW_RocketTail │ RocketTail │");
    assert_eq!(doc.blocks[3].text, "After");
}

#[test]
fn keeps_raw_html_as_literal_text() {
    let doc = parse("before <script>alert(1)</script> after");
    assert_eq!(doc.blocks[0].text, "before <script>alert(1)</script> after");
}

#[test]
fn separates_fenced_code_language_and_removes_the_trailing_blank_line() {
    let doc = parse("```text\nfirst\nsecond\n```\n");
    assert_eq!(doc.blocks.len(), 1);
    assert_eq!(doc.blocks[0].kind, BlockKind::Code);
    assert_eq!(doc.blocks[0].text, "text\n\nfirst\nsecond");
    assert_eq!(doc.blocks[0].spans.len(), 1);
    assert!(doc.blocks[0].spans[0].style.italic);
    assert_eq!(doc.blocks[0].spans[0].length, 6);
}

fn text(value: &str) -> MarkdownEvent {
    MarkdownEvent::Text(value.to_string())
}

#[test]
fn builds_blocks_from_a_hand_written_event_stream() {
    let events = vec![
        MarkdownEvent::Start(MarkdownTag::Heading(2)),
        text("Title"),
        MarkdownEvent::End(MarkdownTagEnd::Heading),
        MarkdownEvent::Start(MarkdownTag::Paragraph),
        text("plain "),
        MarkdownEvent::Start(MarkdownTag::Strong),
        text("bold"),
        MarkdownEvent::End(MarkdownTagEnd::Strong),
        MarkdownEvent::SoftBreak,
        text("next"),
        MarkdownEvent::End(MarkdownTagEnd::Paragraph),
        MarkdownEvent::Rule,
    ];
    let doc = document_from_events(&events);
    assert_eq!(doc.blocks.len(), 3);
    assert_eq!(doc.blocks[0].kind, BlockKind::Heading(2));
    assert_eq!(doc.blocks[1].text, "plain bold next");
    assert_eq!(
        doc.blocks[1].spans,
        vec![StyleSpan {
            start: 6,
            length: 4,
            style: TextStyle { bold: true, ..TextStyle::default() }
        }]
    );
    assert_eq!(doc.blocks[2].kind, BlockKind::Rule);
    assert_eq!(doc.blocks[2].text, "");
}

#[test]
fn quotes_and_nested_lists_set_the_block_kind() {
    let doc = parse("> quoted\n\n- outer\n  - inner\n");
    assert_eq!(doc.blocks[0].kind, BlockKind::Quote);
    assert_eq!(doc.blocks[0].text, "quoted");
    assert_eq!(doc.blocks[1].kind, BlockKind::ListItem { depth: 1 });
    assert_eq!(doc.blocks[2].kind, BlockKind::ListItem { depth: 2 });
    assert_eq!(doc.blocks[2].text, "•  inner");
}

#[test]
fn ordered_lists_count_from_their_start_number() {
    let doc = parse("7. seven\n8. eight\n- [ ] open\n");
    assert_eq!(doc.blocks[0].text, "7.  seven");
    assert_eq!(doc.blocks[1].text, "8.  eight");
    assert_eq!(doc.blocks[2].text, "•  ☐ open");
}

#[test]
fn link_strike_and_footnote_styles() {
    let doc = parse("[site](https://example.com) ~~gone~~ note[^1]\n\n[^1]: text");
    let block = &doc.blocks[0];
    assert!(block.text.starts_with("site (https://example.com) gone note[1]"));
    assert!(block.spans.iter().any(|span| span.style.link && span.start == 0 && span.length == 4));
    assert!(block.spans.iter().any(|span| span.style.strike && span.start == 27 && span.length == 4));
}

#[test]
fn link_destinations_stay_visible() {
    let doc = parse("[site](https://example.com)");
    assert_eq!(doc.blocks.len(), 1);
    assert_eq!(doc.blocks[0].text, "site (https://example.com)");
    assert_eq!(doc.blocks[0].spans.len(), 1);
    assert_eq!(doc.blocks[0].spans[0].length, 4);

    let auto = parse("<https://example.com>");
    assert_eq!(auto.blocks[0].text, "https://example.com");

    let table = parse("| A |\n|---|\n| [x](y.md) |");
    assert_eq!(table.blocks[1].text, "│ x (y.md) │");
}

#[test]
fn link_events_show_the_destination_once() {
    let events = vec![
        MarkdownEvent::Start(MarkdownTag::Paragraph),
        MarkdownEvent::Start(MarkdownTag::Link("a.md".to_string())),
        MarkdownEvent::Text("read".to_string()),
        MarkdownEvent::End(MarkdownTagEnd::Link),
        MarkdownEvent::Start(MarkdownTag::Link(String::new())),
        MarkdownEvent::Text(" more".to_string()),
        MarkdownEvent::End(MarkdownTagEnd::Link),
        MarkdownEvent::End(MarkdownTagEnd::Paragraph),
    ];
    let doc = document_from_events(&events);
    assert_eq!(doc.blocks[0].text, "read (a.md) more");
}

#[test]
fn empty_input_gives_an_empty_document() {
    assert!(parse("").blocks.is_empty());
    assert_eq!(parse(""), quietmd::markdown::Document::default());
}

#[test]
fn draft_append_merges_adjacent_runs_of_one_style() {
    let italic = TextStyle { italic: true, ..TextStyle::default() };
    let mut draft = Draft::new(BlockKind::Paragraph);
    draft.append("ab", italic);
    draft.append("𝄞", italic);
    draft.append("", italic);
    draft.append("c", TextStyle::default());
    draft.append("d", italic);
    assert_eq!(draft.text, "ab𝄞cd");
    assert_eq!(
        draft.spans,
        vec![
            StyleSpan { start: 0, length: 4, style: italic },
            StyleSpan { start: 5, length: 1, style: italic },
        ]
    );
}

#[test]
fn finish_trims_line_breaks_and_clips_runs() {
    let bold = TextStyle { bold: true, ..TextStyle::default() };
    let mut draft = Some(Draft::new(BlockKind::Code));
    if let Some(current) = draft.as_mut() {
        current.append("ab\r\n\n", bold);
    }
    let mut blocks: Vec<Block> = Vec::new();
    finish(&mut draft, &mut blocks);
    assert!(draft.is_none());
    assert_eq!(blocks.len(), 1);
    assert_eq!(blocks[0].text, "ab");
    assert_eq!(blocks[0].spans, vec![StyleSpan { start: 0, length: 2, style: bold }]);

    let mut empty = Some(Draft::new(BlockKind::Paragraph));
    if let Some(current) = empty.as_mut() {
        current.append("\n", bold);
    }
    finish(&mut empty, &mut blocks);
    assert_eq!(blocks.len(), 1);

    let mut empty_code = Some(Draft::new(BlockKind::Code));
    finish(&mut empty_code, &mut blocks);
    assert_eq!(blocks.len(), 2);
    assert_eq!(blocks[1].text, "");
}

#[test]
fn ensure_draft_opens_a_list_item_with_its_prefix() {
    let mut draft: Option<Draft> = None;
    let lists = [ListState { ordered: false, next: 1 }];
    let mut prefix = Some("•  ".to_string());
    ensure_draft(&mut draft, &lists, 0, &mut prefix);
    assert!(prefix.is_none());
    let opened = draft.as_ref().unwrap();
    assert_eq!(opened.kind, BlockKind::ListItem { depth: 1 });
    assert_eq!(opened.text, "•  ");

    let mut quote: Option<Draft> = None;
    let mut none: Option<String> = None;
    ensure_draft(&mut quote, &[], 2, &mut none);
    assert_eq!(quote.as_ref().unwrap().kind, BlockKind::Quote);

    append_break(&mut quote, "\n");
    assert_eq!(quote.as_ref().unwrap().text, "\n");
    let mut nothing: Option<Draft> = None;
    append_break(&mut nothing, " ");
    assert!(nothing.is_none());
}

#[test]
fn utf16_length_counts_surrogate_pairs() {
    assert_eq!(utf16_len(""), 0);
    assert_eq!(utf16_len("abc"), 3);
    assert_eq!(utf16_len("日本"), 2);
    assert_eq!(utf16_len("𝄞x"), 3);
}

#[test]
fn html_block_stays_text_with_code_style() {
    let doc = parse("<div>\nhello\n</div>\n");
    assert_eq!(doc.blocks.len(), 1);
    assert_eq!(doc.blocks[0].text, "<div>\nhello\n</div>");
    assert!(doc.blocks[0].spans.iter().all(|span| span.style.code));
}

#[test]
fn every_parsed_span_lies_within_its_block() {
    let doc = parse("# *a* **b**\n\n```rust\nfn main() {}\n```\n\n- `x` ~~y~~\n\n> [l](u) z\n");
    for block in &doc.blocks {
        let len = utf16_len(&block.text);
        for span in &block.spans {
            assert!(span.length > 0);
            assert!(span.start + span.length <= len);
        }
        assert!(!block.text.ends_with('\n') && !block.text.ends_with('\r'));
    }
}

#[test]
fn list_numbers_are_written_in_decimal() {
    assert_eq!(decimal_string(0), "0");
    assert_eq!(decimal_string(907), "907");
    assert_eq!(decimal_string(u64::MAX), u64::MAX.to_string());
}

#[test]
fn parsed_blocks_have_in_range_levels_and_depths() {
    let doc = parse("###### six\n\n- a\n  - b\n    - c");
    assert_eq!(doc.blocks[0].kind, BlockKind::Heading(6));
    assert_eq!(doc.blocks[1].kind, BlockKind::ListItem { depth: 1 });
    assert_eq!(doc.blocks[3].kind, BlockKind::ListItem { depth: 3 });
}
