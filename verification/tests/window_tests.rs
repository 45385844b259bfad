use quietmd::decode::{
    check_file_size, decode_text, decode_utf16, title_for_file_name, window_title, MAX_FILE_SIZE,
};
use quietmd::settings::{
    settings_for_command, stepped_font_size, FontChoice, LineSpacingChoice, ViewSettings, CMD_COPY,
    CMD_FIND, CMD_FONT_GEORGIA, CMD_SEARCH_WEB, CMD_SIZE_15, CMD_SETTINGS_RESET, CMD_SIZE_11, CMD_SIZE_21, CMD_SPACING_RELAXED,
    CMD_WINDOW_LEFT_HALF, CMD_WINDOW_RIGHT_THIRD,
};
use quietmd::text::wide_null;
use quietmd::window::{
    active_selection, clipboard_payload, command_checked, command_enabled, placement_fits_area, Selection, is_close_shortcut, key_command, menu_action,
    mouse_coordinates, normalized_dpi, scroll_bar_command, search_start, space_page_direction,
    window_layout_for_command, window_placement, zoom_steps, KeyCommand, MenuAction,
    ScrollBarCommand, ScrollMove, WindowLayout, WorkArea, EMPTY_DOCUMENT_MARKDOWN, KEY_A, KEY_C,
    KEY_COMMA, KEY_DOWN, KEY_END, KEY_ESCAPE, KEY_F, KEY_F3, KEY_F5, KEY_HOME, KEY_O,
    KEY_PAGE_DOWN, KEY_PAGE_UP, KEY_Q, KEY_SPACE, KEY_UP, KEY_W,
};

const KEY_NEXT: u16 = 0x22;

#[test]
fn decodes_utf8_and_bom() {
    assert_eq!(decode_text("日本語".as_bytes().to_vec()).unwrap(), "日本語");
    assert_eq!(decode_text(vec![0xef, 0xbb, 0xbf, b'a']).unwrap(), "a");
}

#[test]
fn rejects_unknown_text_encoding_instead_of_replacing_characters() {
    let error = decode_text(vec![0x82, 0xa0]).unwrap_err();
    assert!(error.contains("Unsupported text encoding"));
}

#[test]
fn decodes_utf16_both_endians() {
    assert_eq!(decode_text(vec![0xff, 0xfe, 0x41, 0x00]).unwrap(), "A");
    assert_eq!(decode_text(vec![0xfe, 0xff, 0x00, 0x41]).unwrap(), "A");
}

#[test]
fn decoding_errors_name_the_problem() {
    assert_eq!(
        decode_text(vec![0xef, 0xbb, 0xbf, 0xff]).unwrap_err(),
        "Could not decode the file as UTF-8."
    );
    assert_eq!(
        decode_text(vec![0xff, 0xfe, 0x41]).unwrap_err(),
        "The UTF-16 file has an invalid byte length."
    );
    assert_eq!(
        decode_text(vec![0xff, 0xfe, 0x00, 0xd8]).unwrap_err(),
        "Could not decode the file as UTF-16."
    );
    assert_eq!(
        decode_text(vec![0x82, 0xa0]).unwrap_err(),
        "Unsupported text encoding. Save the file as UTF-8 or UTF-16 with a BOM."
    );
    assert_eq!(decode_text(Vec::new()).unwrap(), "");
    assert_eq!(decode_utf16(&[0x3d, 0xd8, 0x00, 0xde], true).unwrap(), "😀");
}

#[test]
fn formats_window_title_with_ascii_separator() {
    assert_eq!(
        window_title(Some("lighting-system-prep.md")),
        "lighting-system-prep.md - QuietMD"
    );
    assert_eq!(window_title(None), "QuietMD");
}

#[test]
fn window_title_uses_only_the_file_name() {
    assert_eq!(window_title(Some("notes/today.md")), "today.md - QuietMD");
    assert_eq!(window_title(Some("..")), "QuietMD");
    assert_eq!(window_title(Some("")), "QuietMD");
    assert_eq!(window_title(Some("plan.md")), "plan.md - QuietMD");
    assert_eq!(title_for_file_name(Some("a.md")), "a.md - QuietMD");
}

#[test]
fn changes_one_view_setting_at_a_time() {
    let defaults = ViewSettings::default();
    let smaller = settings_for_command(defaults, CMD_SIZE_11).unwrap();
    assert_eq!(smaller.font_size, 11);
    assert_eq!(smaller.font, defaults.font);
    assert_eq!(smaller.line_spacing, defaults.line_spacing);

    let serif = settings_for_command(defaults, CMD_FONT_GEORGIA).unwrap();
    assert_eq!(serif.font, FontChoice::Georgia);
    assert_eq!(serif.font_size, defaults.font_size);
    assert_eq!(serif.line_spacing, defaults.line_spacing);

    let larger = settings_for_command(defaults, CMD_SIZE_21).unwrap();
    assert_eq!(larger.font_size, 21);
    assert_eq!(larger.font, defaults.font);
    assert_eq!(larger.line_spacing, defaults.line_spacing);

    let relaxed = settings_for_command(larger, CMD_SPACING_RELAXED).unwrap();
    assert_eq!(relaxed.line_spacing, LineSpacingChoice::Relaxed);
    assert_eq!(
        settings_for_command(relaxed, CMD_SETTINGS_RESET),
        Some(ViewSettings::default())
    );
}

#[test]
fn non_settings_commands_change_nothing() {
    assert_eq!(settings_for_command(ViewSettings::default(), CMD_COPY), None);
    assert_eq!(settings_for_command(ViewSettings::default(), CMD_WINDOW_LEFT_HALF), None);
}

#[test]
fn steps_and_clamps_wheel_font_sizes() {
    assert_eq!(stepped_font_size(15, 1), 17);
    assert_eq!(stepped_font_size(15, -2), 11);
    assert_eq!(stepped_font_size(21, 3), 21);
    assert_eq!(stepped_font_size(11, -1), 11);
}

#[test]
fn unlisted_sizes_step_from_the_nearest_size() {
    assert_eq!(stepped_font_size(12, 0), 11);
    assert_eq!(stepped_font_size(14, 1), 15);
    assert_eq!(stepped_font_size(200, -1), 19);
    assert_eq!(stepped_font_size(0, i32::MIN), 11);
}

#[test]
fn empty_document_message_is_short_and_actionable() {
    assert_eq!(
        EMPTY_DOCUMENT_MARKDOWN,
        "# Open Markdown\n\nDrop a file here\n\nCtrl+O to browse / right-click for menu"
    );
}

#[test]
fn extracts_signed_mouse_coordinates() {
    let packed = ((20u32 << 16) | u16::MAX as u32) as isize;
    let (x, y) = mouse_coordinates(packed);
    assert_eq!((x as f32, y as f32), (-1.0, 20.0));
}

#[test]
fn recognizes_close_and_quit_shortcuts_only_with_control() {
    assert!(is_close_shortcut(true, KEY_W));
    assert!(is_close_shortcut(true, KEY_Q));
    assert!(!is_close_shortcut(false, KEY_W));
    assert!(!is_close_shortcut(true, KEY_C));
}

#[test]
fn recognizes_forward_and_backward_space_page_shortcuts() {
    assert_eq!(space_page_direction(false, false, KEY_SPACE), Some(false));
    assert_eq!(space_page_direction(false, true, KEY_SPACE), Some(true));
    assert_eq!(space_page_direction(true, false, KEY_SPACE), None);
    assert_eq!(space_page_direction(false, false, KEY_NEXT), None);
}

#[test]
fn calculates_window_layouts_from_the_monitor_work_area() {
    let work_area = WorkArea { left: -1920, top: 24, right: 0, bottom: 1064 };
    assert_eq!(window_placement(work_area, WindowLayout::LeftThird), (-1920, 24, 640, 1040));
    assert_eq!(window_placement(work_area, WindowLayout::RightThird), (-640, 24, 640, 1040));
    assert_eq!(window_placement(work_area, WindowLayout::LeftHalf), (-1920, 24, 960, 1040));
    assert_eq!(window_placement(work_area, WindowLayout::RightHalf), (-960, 24, 960, 1040));
}

#[test]
fn degenerate_work_areas_still_give_a_visible_window() {
    let area = WorkArea { left: 10, top: 10, right: 10, bottom: 5 };
    assert!(placement_fits_area(area, WindowLayout::RightThird));
    assert_eq!(window_placement(area, WindowLayout::RightThird), (9, 10, 1, 1));
    let huge = WorkArea { left: i32::MIN, top: 0, right: i32::MAX, bottom: 10 };
    assert!(!placement_fits_area(huge, WindowLayout::LeftHalf));
    let edge = WorkArea { left: i32::MIN, top: 0, right: i32::MIN, bottom: 10 };
    assert!(!placement_fits_area(edge, WindowLayout::RightHalf));
    assert!(placement_fits_area(edge, WindowLayout::LeftHalf));
    assert_eq!(window_layout_for_command(CMD_WINDOW_RIGHT_THIRD), Some(WindowLayout::RightThird));
    assert_eq!(window_layout_for_command(CMD_COPY), None);
}

#[test]
fn dpi_zoom_selection_and_clipboard_helpers() {
    assert_eq!(normalized_dpi(0), 96);
    assert_eq!(normalized_dpi(144), 144);
    assert_eq!(zoom_steps(100, 140), (2, 0));
    assert_eq!(zoom_steps(0, -130), (-1, -10));
    assert_eq!(zoom_steps(-10, 20), (0, 10));
    assert_eq!(active_selection(Some(4), Some(9)), Some((4, 9)));
    assert_eq!(active_selection(Some(4), Some(4)), None);
    assert_eq!(active_selection(None, Some(4)), None);
    assert_eq!(search_start(Some((9, 4)), true, 50), 9);
    assert_eq!(search_start(Some((9, 4)), false, 50), 4);
    assert_eq!(search_start(None, false, 50), 50);
    assert_eq!(search_start(None, true, 50), 0);
    assert_eq!(clipboard_payload(&[0x61, 0x62]), vec![0x61, 0x62, 0]);
    assert_eq!(wide_null("a𝄞"), vec![0x61, 0xD834, 0xDD1E, 0]);
}

#[test]
fn shortcut_keys_match_the_documented_table() {
    assert_eq!(key_command(true, false, KEY_O), KeyCommand::Open);
    assert_eq!(key_command(true, false, KEY_C), KeyCommand::Copy);
    assert_eq!(key_command(true, false, KEY_A), KeyCommand::SelectAll);
    assert_eq!(key_command(true, false, KEY_F), KeyCommand::Find);
    assert_eq!(key_command(false, false, KEY_F3), KeyCommand::FindAgain { reverse: false });
    assert_eq!(key_command(false, true, KEY_F3), KeyCommand::FindAgain { reverse: true });
    assert_eq!(key_command(false, false, KEY_ESCAPE), KeyCommand::ClearSelection);
    assert_eq!(key_command(true, false, KEY_COMMA), KeyCommand::ContextMenu);
    assert_eq!(key_command(false, false, KEY_F5), KeyCommand::Reload);
    assert_eq!(key_command(false, false, KEY_SPACE), KeyCommand::Scroll(ScrollMove::PageDown));
    assert_eq!(key_command(false, true, KEY_SPACE), KeyCommand::Scroll(ScrollMove::PageUp));
    assert_eq!(key_command(true, false, KEY_W), KeyCommand::Close);
    assert_eq!(key_command(true, false, KEY_Q), KeyCommand::Close);
    assert_eq!(key_command(false, false, KEY_UP), KeyCommand::Scroll(ScrollMove::LineUp));
    assert_eq!(key_command(false, false, KEY_DOWN), KeyCommand::Scroll(ScrollMove::LineDown));
    assert_eq!(key_command(false, false, KEY_PAGE_UP), KeyCommand::Scroll(ScrollMove::PageUp));
    assert_eq!(key_command(false, false, KEY_PAGE_DOWN), KeyCommand::Scroll(ScrollMove::PageDown));
    assert_eq!(key_command(false, false, KEY_HOME), KeyCommand::Scroll(ScrollMove::Top));
    assert_eq!(key_command(false, false, KEY_END), KeyCommand::Scroll(ScrollMove::Bottom));
}

#[test]
fn keys_without_control_do_not_trigger_control_shortcuts() {
    assert_eq!(key_command(false, false, KEY_A), KeyCommand::Unhandled);
    assert_eq!(key_command(false, false, KEY_W), KeyCommand::Unhandled);
    assert_eq!(key_command(true, false, KEY_SPACE), KeyCommand::Unhandled);
    assert_eq!(key_command(true, false, KEY_HOME), KeyCommand::Scroll(ScrollMove::Top));
}

#[test]
fn scroll_bar_requests() {
    assert_eq!(scroll_bar_command(0), Some(ScrollBarCommand::Move(ScrollMove::LineUp)));
    assert_eq!(scroll_bar_command(3), Some(ScrollBarCommand::Move(ScrollMove::PageDown)));
    assert_eq!(scroll_bar_command(5), Some(ScrollBarCommand::Track));
    assert_eq!(scroll_bar_command(4), Some(ScrollBarCommand::Track));
    assert_eq!(scroll_bar_command(7), Some(ScrollBarCommand::Move(ScrollMove::Bottom)));
    assert_eq!(scroll_bar_command(8), None);
}

#[test]
fn menu_commands_choose_one_action() {
    let defaults = ViewSettings::default();
    assert_eq!(menu_action(defaults, CMD_FIND), MenuAction::Find);
    assert_eq!(menu_action(defaults, CMD_COPY), MenuAction::Copy);
    assert_eq!(
        menu_action(defaults, CMD_WINDOW_RIGHT_THIRD),
        MenuAction::Arrange(WindowLayout::RightThird)
    );
    let serif = ViewSettings { font: FontChoice::Georgia, ..defaults };
    assert_eq!(menu_action(defaults, CMD_FONT_GEORGIA), MenuAction::Apply(serif));
    assert_eq!(menu_action(serif, CMD_SETTINGS_RESET), MenuAction::Apply(defaults));
    assert_eq!(menu_action(defaults, 0), MenuAction::Nothing);
}

#[test]
fn files_up_to_32_mib_may_be_opened() {
    assert_eq!(MAX_FILE_SIZE, 32 * 1024 * 1024);
    assert!(check_file_size(0).is_ok());
    assert!(check_file_size(MAX_FILE_SIZE).is_ok());
    assert_eq!(
        check_file_size(MAX_FILE_SIZE + 1),
        Err("The file is too large (maximum: 32 MiB).".to_string())
    );
}

#[test]
fn window_title_names_the_file_in_its_directory() {
    assert_eq!(window_title(Some("docs/guide/intro.md")), "intro.md - QuietMD");
    assert_eq!(window_title(Some("a//b.md")), "b.md - QuietMD");
}

#[test]
fn menu_items_are_enabled_and_checked_by_state() {
    assert!(command_enabled(CMD_FIND, false, true));
    assert!(!command_enabled(CMD_FIND, false, false));
    assert!(!command_enabled(CMD_SEARCH_WEB, false, true));
    assert!(command_enabled(CMD_SEARCH_WEB, true, true));
    assert!(!command_enabled(CMD_COPY, false, true));
    assert!(command_enabled(CMD_SETTINGS_RESET, false, false));
    let defaults = ViewSettings::default();
    assert!(command_checked(defaults, CMD_SIZE_15));
    assert!(!command_checked(defaults, CMD_SIZE_11));
    assert!(!command_checked(defaults, CMD_FONT_GEORGIA));
    assert!(!command_checked(defaults, CMD_SETTINGS_RESET));
    assert!(!command_checked(defaults, CMD_WINDOW_LEFT_HALF));
    assert_eq!(menu_action(defaults, CMD_SEARCH_WEB), MenuAction::SearchWeb);
}

#[test]
fn selection_follows_the_mouse_only_while_dragging() {
    let begun = Selection::begun(4);
    assert_eq!(begun.range(), None);
    let dragged = begun.dragged_to(9);
    assert_eq!(dragged.range(), Some((4, 9)));
    let released = dragged.released();
    assert!(!released.selecting);
    assert_eq!(released.dragged_to(20), released);
    assert_eq!(Selection::all(12).range(), Some((0, 12)));
    assert_eq!(Selection::none().range(), None);
    assert_eq!(Selection::between(7, 3).range(), Some((7, 3)));
}
