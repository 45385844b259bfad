use quietmd::layout::{image_caption, is_remote_source, normalized_range, LayoutDocument};
use quietmd::markdown::{parse, Block, BlockKind, Document};
use quietmd::search::{find_utf16, fold_utf16};
use quietmd::sentence::{
    is_ascii_alphanumeric_utf16, is_sentence_closer, is_sentence_terminal, is_sentence_whitespace,
    sentence_range_utf16,
};
use quietmd::settings::{FontChoice, LineSpacingChoice, ViewSettings};
use quietmd::websearch::web_search_url;

fn wide(text: &str) -> Vec<u16> {
    text.encode_utf16().collect()
}

#[test]
fn view_settings_have_quiet_defaults() {
    let settings = ViewSettings::default();
    assert_eq!(settings.font, FontChoice::SegoeUi);
    assert_eq!(settings.font_size, 15);
    assert_eq!(settings.line_spacing, LineSpacingChoice::Standard);
}

#[test]
fn selection_range_is_ordered_and_clamped() {
    assert_eq!(normalized_range(8, 3, 10), (3, 8));
    assert_eq!(normalized_range(20, 4, 10), (4, 10));
}

#[test]
fn search_wraps_in_both_directions_and_respects_options() {
    let text = "Alpha beta ALPHA alphabet".encode_utf16().collect::<Vec<_>>();
    let alpha = "alpha".encode_utf16().collect::<Vec<_>>();
    assert_eq!(find_utf16(&text, &alpha, 0, true, false, false), Some((0, 5)));
    assert_eq!(find_utf16(&text, &alpha, 6, true, false, false), Some((11, 16)));
    assert_eq!(find_utf16(&text, &alpha, 11, false, false, false), Some((0, 5)));
    assert_eq!(find_utf16(&text, &alpha, 0, false, false, false), Some((17, 22)));
    assert_eq!(find_utf16(&text, &alpha, 0, true, true, false), Some((17, 22)));
    assert_eq!(find_utf16(&text, &alpha, 0, true, true, true), None);
    assert_eq!(find_utf16(&text, &alpha, 17, true, false, true), Some((0, 5)));
}

#[test]
fn finds_the_sentence_containing_the_clicked_character() {
    fn selected_sentence(text: &str, marker: &str) -> String {
        let marker_byte = text.find(marker).unwrap();
        let position = text[..marker_byte].encode_utf16().count() as u32;
        let wide = text.encode_utf16().collect::<Vec<_>>();
        let (start, end) = sentence_range_utf16(&wide, position).unwrap();
        String::from_utf16(&wide[start as usize..end as usize]).unwrap()
    }

    let text = "「最初です。」 次の文は表示上で折り返しても一続きです！ 最後です？";
    assert_eq!(selected_sentence(text, "最初"), "「最初です。」");
    assert_eq!(
        selected_sentence(text, "折り返して"),
        "次の文は表示上で折り返しても一続きです！"
    );
    assert_eq!(selected_sentence(text, "最後"), "最後です？");
}

#[test]
fn keeps_decimal_points_inside_a_sentence_and_stops_at_hard_breaks() {
    let text = "Version 1.2 is current.\nSecond sentence.";
    let wide = text.encode_utf16().collect::<Vec<_>>();
    let decimal_position = text.find("1.2").unwrap() as u32;
    let second_position = text.find("Second").unwrap() as u32;

    let first = sentence_range_utf16(&wide, decimal_position).unwrap();
    let second = sentence_range_utf16(&wide, second_position).unwrap();
    assert_eq!(
        String::from_utf16(&wide[first.0 as usize..first.1 as usize]).unwrap(),
        "Version 1.2 is current."
    );
    assert_eq!(
        String::from_utf16(&wide[second.0 as usize..second.1 as usize]).unwrap(),
        "Second sentence."
    );
}

#[test]
fn sentence_edge_cases() {
    assert_eq!(sentence_range_utf16(&[], 0), None);
    assert_eq!(sentence_range_utf16(&wide("   "), 1), None);
    let text = wide("One. Two?!\" three");
    assert_eq!(sentence_range_utf16(&text, 0), Some((0, 4)));
    assert_eq!(sentence_range_utf16(&text, 6), Some((5, 11)));
    assert_eq!(sentence_range_utf16(&text, 4), Some((5, 11)));
    assert_eq!(sentence_range_utf16(&text, 1000), Some((12, 17)));
    let trailing = wide("Only one.   ");
    assert_eq!(sentence_range_utf16(&trailing, 11), Some((0, 9)));
    assert_eq!(sentence_range_utf16(&wide(" \n \n "), 2), None);
    assert_eq!(sentence_range_utf16(&wide("\n\n x \n"), 0), Some((3, 4)));
}

#[test]
fn sentence_character_classes() {
    assert!(is_ascii_alphanumeric_utf16(b'7' as u16));
    assert!(!is_ascii_alphanumeric_utf16(b'_' as u16));
    assert!(is_sentence_closer(0x300D));
    assert!(!is_sentence_closer(b'(' as u16));
    assert!(is_sentence_whitespace(0x3000));
    assert!(is_sentence_whitespace(b'\n' as u16));
    assert!(!is_sentence_whitespace(0xD800));
    let dotted = wide("a.b x. y");
    assert!(!is_sentence_terminal(&dotted, 1));
    assert!(is_sentence_terminal(&dotted, 5));
}

#[test]
fn search_handles_case_folding_and_surrogates() {
    let text = wide("x𝄞 É é");
    let query = wide("é");
    assert_eq!(find_utf16(&text, &query, 0, true, false, false), Some((4, 5)));
    assert_eq!(find_utf16(&text, &query, 0, true, true, false), Some((6, 7)));
    let clef = wide("𝄞");
    assert_eq!(find_utf16(&text, &clef, 0, true, true, false), Some((1, 3)));
    assert_eq!(find_utf16(&text, &[], 0, true, true, false), None);
    assert_eq!(find_utf16(&wide("ab"), &wide("abc"), 0, true, true, false), None);
    let words = wide("snake_case case");
    assert_eq!(find_utf16(&words, &wide("case"), 0, true, true, true), Some((11, 15)));
}

#[test]
fn fold_keeps_source_ranges_and_replaces_lone_surrogates() {
    let folded = fold_utf16(&[0x41, 0xD834, 0xDD1E, 0xDC00], false);
    assert_eq!(folded.len(), 3);
    assert_eq!((folded[0].value, folded[0].start, folded[0].end), ('a', 0, 1));
    assert_eq!((folded[1].value, folded[1].start, folded[1].end), ('𝄞', 1, 3));
    assert_eq!((folded[2].value, folded[2].start, folded[2].end), ('\u{FFFD}', 3, 4));
    let exact = fold_utf16(&[0x41], true);
    assert_eq!(exact[0].value, 'A');
    let dotted = fold_utf16(&wide("İ"), false);
    assert_eq!(dotted.len(), 2);
}

#[test]
fn remote_sources_are_recognised_in_any_case() {
    assert!(is_remote_source("  HTTPS://example.com/a.png"));
    assert!(is_remote_source("http://x"));
    assert!(is_remote_source("Data:image/png;base64,AAAA"));
    assert!(!is_remote_source("image.png"));
    assert!(!is_remote_source("httpx://"));
    assert_eq!(image_caption("image.png", " alt "), "[image] alt\nimage.png");
    assert_eq!(
        image_caption("https://x/y.png", ""),
        "[remote image omitted] image\nhttps://x/y.png"
    );
}

#[test]
fn font_family_names() {
    assert_eq!(FontChoice::SegoeUi.family_name(), "Segoe UI");
    assert_eq!(FontChoice::BizUdGothic.family_name(), "BIZ UDGothic");
    assert_eq!(FontChoice::YuGothicUi.family_name(), "Yu Gothic UI");
    assert_eq!(FontChoice::default(), FontChoice::SegoeUi);
    assert_eq!(LineSpacingChoice::default(), LineSpacingChoice::Standard);
}

fn block(kind: BlockKind, text: &str) -> Block {
    Block { kind, text: text.to_string(), spans: Vec::new() }
}

#[test]
fn layout_text_separates_blocks_and_shows_image_captions() {
    let document = Document {
        blocks: vec![
            block(BlockKind::Heading(1), "Title"),
            block(BlockKind::Rule, ""),
            block(BlockKind::Image { source: "a.png".to_string(), alt: String::new() }, ""),
            block(BlockKind::Paragraph, "𝄞 end"),
        ],
    };
    let layout = LayoutDocument::new(&document).unwrap();
    let expected = "Title\n\n[image] image\na.png\n𝄞 end";
    assert_eq!(String::from_utf16(&layout.selected_text(0, u32::MAX)).unwrap(), expected);
    assert_eq!(layout.text_len(), expected.encode_utf16().count() as u32);
    assert_eq!(layout.block_count(), 4);
    assert_eq!(layout.block_range(0), (0, 5));
    assert_eq!(layout.block_range(1), (6, 0));
    assert_eq!(layout.block_range(2), (7, 19));
    assert_eq!(String::from_utf16(&layout.block_units(3)).unwrap(), "𝄞 end");
    assert_eq!(layout.position_block(3), Some((0, 3)));
    assert_eq!(layout.position_block(6), Some((1, 0)));
    assert_eq!(layout.position_block(10_000), Some((3, 6)));
}

#[test]
fn layout_selection_search_and_sentences() {
    let document = parse("First one. Second one.\n\nNext block");
    let layout = LayoutDocument::new(&document).unwrap();
    assert_eq!(String::from_utf16(&layout.selected_text(10, 0)).unwrap(), "First one.");
    let query = wide("one");
    assert_eq!(layout.find_text(&query, 9, true, true, false), Some((18, 21)));
    assert_eq!(layout.find_text(&query, 500, false, true, false), Some((18, 21)));
    assert_eq!(layout.block_sentence(0, 12), Some((11, 22)));
    assert_eq!(layout.block_sentence(1, 0), Some((23, 33)));
    assert_eq!(layout.block_selection(1, (30, 5)), Some((0, 7)));
    assert_eq!(layout.block_selection(0, (23, 30)), None);
    assert!(layout.keeps_selection(0, 5, &wide("First")));
    assert!(!layout.keeps_selection(0, 5, &wide("Frist")));
    assert!(!layout.keeps_selection(30, 40, &wide("")));
}

#[test]
fn empty_document_has_empty_layout_text() {
    let layout = LayoutDocument::new(&Document { blocks: Vec::new() }).unwrap();
    assert_eq!(layout.text_len(), 0);
    assert_eq!(layout.position_block(0), None);
    assert!(layout.selected_text(0, 3).is_empty());
}

#[test]
fn reload_keeps_only_an_unchanged_selection() {
    let text = (0..300)
        .map(|index| format!("Paragraph {index}: searchable marker text."))
        .collect::<Vec<_>>()
        .join("\n\n");
    let before = LayoutDocument::new(&parse(&text)).unwrap();
    let marker = wide("searchable marker");
    let (start, end) = before.find_text(&marker, 0, true, true, false).unwrap();
    let selected = before.selected_text(start, end);
    assert_eq!(selected, marker);

    let same = LayoutDocument::new(&parse(&text)).unwrap();
    assert!(same.keeps_selection(start, end, &selected));

    let inserted = format!("Inserted before the document.\n\n{text}");
    let shifted = LayoutDocument::new(&parse(&inserted)).unwrap();
    assert!(!shifted.keeps_selection(start, end, &selected));
}

#[test]
fn web_search_address_escapes_the_selection() {
    let url = String::from_utf16(&web_search_url(&wide("rust verus"))).unwrap();
    assert_eq!(url, "https://www.google.com/search?q=rust%20verus");
    let url = String::from_utf16(&web_search_url(&wide("日本 a-b_c.d~e&f"))).unwrap();
    assert_eq!(url, "https://www.google.com/search?q=%E6%97%A5%E6%9C%AC%20a-b_c.d~e%26f");
    let url = String::from_utf16(&web_search_url(&wide("𝄞"))).unwrap();
    assert_eq!(url, "https://www.google.com/search?q=%F0%9D%84%9E");
    let url = String::from_utf16(&web_search_url(&[0xD800])).unwrap();
    assert_eq!(url, "https://www.google.com/search?q=%EF%BF%BD");
}
