//! Window-level decisions: window layouts on a monitor's work area, mouse coordinates,
//! keyboard shortcuts, scroll-bar and menu commands, DPI, Ctrl+wheel zoom steps, selection
//! and search start.

use crate::settings::{
    font_for_command, settings_after_command, settings_for_command, size_for_command,
    spacing_for_command, FontChoice, LineSpacingChoice, ViewSettings, CMD_CLEAR_SELECTION,
    CMD_COPY, CMD_FIND, CMD_FONT_ARIAL, CMD_FONT_BIZ_UD_GOTHIC, CMD_FONT_CONSOLAS,
    CMD_FONT_GEORGIA, CMD_FONT_MEIRYO, CMD_FONT_SEGOE_UI, CMD_FONT_YU_GOTHIC_UI,
    CMD_SEARCH_WEB, CMD_SELECT_ALL, CMD_SETTINGS_RESET, CMD_SIZE_11, CMD_SIZE_13, CMD_SIZE_15,
    CMD_SIZE_17, CMD_SIZE_19, CMD_SIZE_21, CMD_SPACING_COMPACT, CMD_SPACING_RELAXED,
    CMD_SPACING_STANDARD, CMD_WINDOW_LEFT_HALF, CMD_WINDOW_LEFT_THIRD, CMD_WINDOW_RIGHT_HALF,
    CMD_WINDOW_RIGHT_THIRD,
};
use vstd::prelude::*;

verus! {

/// The DPI at which one pixel is one device-independent pixel.
pub const DEFAULT_DPI: u32 = 96;

/// What the window shows before a file is opened.
pub const EMPTY_DOCUMENT_MARKDOWN: &'static str = "# Open Markdown\n\nDrop a file here\n\nCtrl+O to browse / right-click for menu";

/// Where the window can be placed on the current monitor.
#[derive(Clone, Copy, Debug, PartialEq, Eq, Structural)]
pub enum WindowLayout {
    LeftThird,
    RightThird,
    LeftHalf,
    RightHalf,
}

/// The window layout that a menu command selects.
pub open spec fn layout_for_command(command: u32) -> Option<WindowLayout> {
    if command == CMD_WINDOW_LEFT_THIRD {
        Some(WindowLayout::LeftThird)
    } else if command == CMD_WINDOW_RIGHT_THIRD {
        Some(WindowLayout::RightThird)
    } else if command == CMD_WINDOW_LEFT_HALF {
        Some(WindowLayout::LeftHalf)
    } else if command == CMD_WINDOW_RIGHT_HALF {
        Some(WindowLayout::RightHalf)
    } else {
        None
    }
}

/// The window layout that a menu command selects, if it is a layout command.
pub fn window_layout_for_command(command: u32) -> (layout: Option<WindowLayout>)
    ensures
        layout == layout_for_command(command),
{
    if command == CMD_WINDOW_LEFT_THIRD {
        Some(WindowLayout::LeftThird)
    } else if command == CMD_WINDOW_RIGHT_THIRD {
        Some(WindowLayout::RightThird)
    } else if command == CMD_WINDOW_LEFT_HALF {
        Some(WindowLayout::LeftHalf)
    } else if command == CMD_WINDOW_RIGHT_HALF {
        Some(WindowLayout::RightHalf)
    } else {
        None
    }
}

/// Each window-layout command places the window as its menu item names, on any work area:
/// the left items at the work area's left edge and the right items against its right
/// edge, the third items a third of its width wide and the half items half of it.
pub proof fn lemma_layout_commands_place_as_named(area: WorkArea)
    ensures
        layout_for_command(CMD_WINDOW_LEFT_THIRD) matches Some(l) && !is_right_layout(l) && placement_width(area, l)
            == at_least_one(at_least_one(area.right - area.left) / 3),
        layout_for_command(CMD_WINDOW_RIGHT_THIRD) matches Some(l) && is_right_layout(l) && placement_width(area, l)
            == at_least_one(at_least_one(area.right - area.left) / 3),
        layout_for_command(CMD_WINDOW_LEFT_HALF) matches Some(l) && !is_right_layout(l) && placement_width(area, l)
            == at_least_one(at_least_one(area.right - area.left) / 2),
        layout_for_command(CMD_WINDOW_RIGHT_HALF) matches Some(l) && is_right_layout(l) && placement_width(area, l)
            == at_least_one(at_least_one(area.right - area.left) / 2),
{
}

/// A rectangle in screen coordinates: the work area of a monitor.
#[derive(Clone, Copy, Debug, PartialEq, Eq, Structural)]
pub struct WorkArea {
    pub left: i32,
    pub top: i32,
    pub right: i32,
    pub bottom: i32,
}

/// `v`, but at least 1.
pub open spec fn at_least_one(v: int) -> int {
    if v < 1 { 1 } else { v }
}

/// The width of the window in a layout: a third or a half of the work area, at least 1.
pub open spec fn placement_width(area: WorkArea, layout: WindowLayout) -> int {
    let work_width = at_least_one(area.right - area.left);
    match layout {
        WindowLayout::LeftThird | WindowLayout::RightThird => at_least_one(work_width / 3),
        WindowLayout::LeftHalf | WindowLayout::RightHalf => at_least_one(work_width / 2),
    }
}

/// Whether a layout keeps the window at the right edge.
pub open spec fn is_right_layout(layout: WindowLayout) -> bool {
    layout is RightThird || layout is RightHalf
}

/// Whether the placement's arithmetic stays within 32 bits.
pub open spec fn placement_fits(area: WorkArea, layout: WindowLayout) -> bool {
    &&& i32::MIN <= area.right - area.left <= i32::MAX
    &&& i32::MIN <= area.bottom - area.top <= i32::MAX
    &&& is_right_layout(layout) ==> i32::MIN <= area.right - placement_width(area, layout)
}

/// Whether `window_placement` can place `layout` on `work_area` with 32-bit arithmetic.
pub fn placement_fits_area(work_area: WorkArea, layout: WindowLayout) -> (fits: bool)
    ensures
        fits == placement_fits(work_area, layout),
{
    let width = work_area.right as i64 - work_area.left as i64;
    let height = work_area.bottom as i64 - work_area.top as i64;
    if width < i32::MIN as i64 || width > i32::MAX as i64 || height < i32::MIN as i64 || height
        > i32::MAX as i64 {
        return false;
    }
    let work_width = if width < 1 {
        1
    } else {
        width
    };
    let share = match layout {
        WindowLayout::LeftThird | WindowLayout::RightThird => work_width / 3,
        WindowLayout::LeftHalf | WindowLayout::RightHalf => work_width / 2,
    };
    let placed = if share < 1 {
        1
    } else {
        share
    };
    match layout {
        WindowLayout::RightThird | WindowLayout::RightHalf => work_area.right as i64 - placed
            >= i32::MIN as i64,
        WindowLayout::LeftThird | WindowLayout::LeftHalf => true,
    }
}

/// The position and size `(x, y, width, height)` of the window for a layout: full height
/// of the work area, a third or half of its width, at its left or right edge.
pub fn window_placement(work_area: WorkArea, layout: WindowLayout) -> (placement: (i32, i32, i32, i32))
    requires
        placement_fits(work_area, layout),
    ensures
        placement.2 == placement_width(work_area, layout),
        placement.3 == at_least_one(work_area.bottom - work_area.top),
        placement.1 == work_area.top,
        placement.0 == if is_right_layout(layout) {
            work_area.right - placement_width(work_area, layout)
        } else {
            work_area.left as int
        },
{
    let raw_width = work_area.right - work_area.left;
    let work_width = if raw_width < 1 {
        1
    } else {
        raw_width
    };
    let raw_height = work_area.bottom - work_area.top;
    let work_height = if raw_height < 1 {
        1
    } else {
        raw_height
    };
    let share = match layout {
        WindowLayout::LeftThird | WindowLayout::RightThird => work_width / 3,
        WindowLayout::LeftHalf | WindowLayout::RightHalf => work_width / 2,
    };
    let width = if share < 1 {
        1
    } else {
        share
    };
    let x = match layout {
        WindowLayout::LeftThird | WindowLayout::LeftHalf => work_area.left,
        WindowLayout::RightThird | WindowLayout::RightHalf => work_area.right - width,
    };
    (x, work_area.top, width, work_height)
}

/// A 16-bit value read as a two's-complement signed number.
pub open spec fn signed16(v: int) -> int {
    if v < 0x8000 { v } else { v - 0x10000 }
}

/// Reading a 16-bit word as signed keeps its value modulo 2^16 and gives a number in
/// the range of `i16`: words below 0x8000 are themselves, the others negative.
pub proof fn lemma_signed16_is_twos_complement(v: int)
    requires
        0 <= v < 0x10000,
    ensures
        -0x8000 <= signed16(v) < 0x8000,
        (signed16(v) + 0x10000) % 0x10000 == v,
        signed16(v) < 0 <==> v >= 0x8000,
{
}

/// The signed client coordinates packed in a mouse message's `LPARAM`: x in the low word,
/// y in the high word.
pub fn mouse_coordinates(packed: isize) -> (point: (i16, i16))
    ensures
        point.0 == signed16((packed as usize) as int % 0x10000),
        point.1 == signed16(((packed as usize) as int / 0x10000) % 0x10000),
{
    let bits = packed as usize;
    let low: usize = bits & 0xffff;
    let high: usize = (bits >> 16usize) & 0xffff;
    assert(low == bits % 0x10000) by (bit_vector)
        requires
            low == bits & 0xffff,
    ;
    assert(high == (bits / 0x10000) % 0x10000) by (bit_vector)
        requires
            high == (bits >> 16usize) & 0xffff,
    ;
    let x: i16 = if low < 0x8000 {
        low as i16
    } else {
        (low as i32 - 0x10000) as i16
    };
    let y: i16 = if high < 0x8000 {
        high as i16
    } else {
        (high as i32 - 0x10000) as i16
    };
    (x, y)
}

/// The `W` key.
pub const KEY_W: u16 = 0x57;

/// The `Q` key.
pub const KEY_Q: u16 = 0x51;

/// The space bar.
pub const KEY_SPACE: u16 = 0x20;

/// The `A` key.
pub const KEY_A: u16 = 0x41;

/// The `C` key.
pub const KEY_C: u16 = 0x43;

/// The `F` key.
pub const KEY_F: u16 = 0x46;

/// The `O` key.
pub const KEY_O: u16 = 0x4F;

/// The `,` key.
pub const KEY_COMMA: u16 = 0xBC;

/// The Esc key.
pub const KEY_ESCAPE: u16 = 0x1B;

/// The F3 key.
pub const KEY_F3: u16 = 0x72;

/// The F5 key.
pub const KEY_F5: u16 = 0x74;

/// The Page Up key.
pub const KEY_PAGE_UP: u16 = 0x21;

/// The Page Down key.
pub const KEY_PAGE_DOWN: u16 = 0x22;

/// The End key.
pub const KEY_END: u16 = 0x23;

/// The Home key.
pub const KEY_HOME: u16 = 0x24;

/// The Up arrow key.
pub const KEY_UP: u16 = 0x26;

/// The Down arrow key.
pub const KEY_DOWN: u16 = 0x28;

/// Whether a key press closes the window: Ctrl+W or Ctrl+Q.
pub fn is_close_shortcut(control: bool, key: u16) -> (close: bool)
    ensures
        close == (control && (key == KEY_W || key == KEY_Q)),
{
    control && (key == KEY_W || key == KEY_Q)
}

/// The page direction of a space-bar press without Ctrl: `Some(true)` pages back (with
/// Shift), `Some(false)` pages forward; other keys give `None`.
pub fn space_page_direction(control: bool, shift: bool, key: u16) -> (backward: Option<bool>)
    ensures
        backward == if !control && key == KEY_SPACE {
            Some(shift)
        } else {
            None::<bool>
        },
{
    if !control && key == KEY_SPACE {
        Some(shift)
    } else {
        None
    }
}

/// The DPI to use: the reported DPI, or 96 when none is reported.
pub fn normalized_dpi(dpi: u32) -> (normalized: u32)
    ensures
        normalized == if dpi == 0 { DEFAULT_DPI } else { dpi },
        normalized > 0,
{
    if dpi == 0 {
        DEFAULT_DPI
    } else {
        dpi
    }
}

/// Integer division that rounds toward zero, as Rust's `/` does.
pub open spec fn div_toward_zero(a: int, b: int) -> int {
    if a >= 0 { a / b } else { -((-a) / b) }
}

/// Splits accumulated Ctrl+wheel rotation into whole notches of 120 and what is left:
/// returns `(steps, remainder)` with `steps * 120 + remainder` equal to the total.
pub fn zoom_steps(accumulated: i32, delta: i32) -> (split: (i32, i32))
    requires
        i32::MIN <= accumulated + delta <= i32::MAX,
    ensures
        split.0 == div_toward_zero(accumulated + delta, 120),
        split.0 * 120 + split.1 == accumulated + delta,
{
    let total = accumulated as i64 + delta as i64;
    let steps: i64 = if total >= 0 {
        total / 120
    } else {
        -((-total) / 120)
    };
    let remainder = total - steps * 120;
    (steps as i32, remainder as i32)
}

/// The selection between an anchor and an active end, when both are set and differ.
pub fn active_selection(anchor: Option<u32>, active: Option<u32>) -> (selection: Option<(u32, u32)>)
    ensures
        selection == match (anchor, active) {
            (Some(a), Some(b)) => if a != b {
                Some((a, b))
            } else {
                None::<(u32, u32)>
            },
            _ => None::<(u32, u32)>,
        },
{
    match (anchor, active) {
        (Some(a), Some(b)) => if a != b {
            Some((a, b))
        } else {
            None
        },
        _ => None,
    }
}

/// Where Find starts: after the selection going forward, before it going backward; with
/// no selection, at the start of the text going forward and at its end going backward.
pub fn search_start(selection: Option<(u32, u32)>, forward: bool, text_len: u32) -> (start: u32)
    ensures
        start == match selection {
            Some((a, b)) => if forward {
                if a >= b { a } else { b }
            } else {
                if a <= b { a } else { b }
            },
            None => if forward { 0 } else { text_len },
        },
{
    match selection {
        Some((a, b)) => if forward {
            if a >= b {
                a
            } else {
                b
            }
        } else {
            if a <= b {
                a
            } else {
                b
            }
        },
        None => if forward {
            0
        } else {
            text_len
        },
    }
}

/// UTF-16 text terminated by a zero unit, as the clipboard takes it.
pub fn clipboard_payload(text: &[u16]) -> (payload: Vec<u16>)
    ensures
        payload@ == text@.push(0u16),
{
    let mut payload: Vec<u16> = Vec::with_capacity(text.len());
    for i in 0..text.len()
        invariant
            payload@ == text@.take(i as int),
    {
        payload.push(text[i]);
        assert(payload@ =~= text@.take(i + 1));
    }
    assert(text@.take(text@.len() as int) =~= text@);
    payload.push(0);
    payload
}

/// A move of the view: by a line, by a page, or to either end of the document.
#[derive(Clone, Copy, Debug, PartialEq, Eq, Structural)]
pub enum ScrollMove {
    LineUp,
    LineDown,
    PageUp,
    PageDown,
    Top,
    Bottom,
}

/// What a key press asks of the viewer.
#[derive(Clone, Copy, Debug, PartialEq, Eq, Structural)]
pub enum KeyCommand {
    SelectAll,
    Copy,
    Open,
    Find,
    ContextMenu,
    Close,
    ClearSelection,
    Reload,
    /// Find the next occurrence again; `reverse` (with Shift) searches the other way.
    FindAgain { reverse: bool },
    Scroll(ScrollMove),
    /// A key that the viewer leaves to the system.
    Unhandled,
}

/// The scroll move of a key without a command of its own: the arrows move by a line,
/// Page Up/Down and the space bar (backward with Shift) by a page, Home and End to the
/// ends.
pub open spec fn scroll_key_move(control: bool, shift: bool, key: u16) -> Option<ScrollMove> {
    if key == KEY_UP {
        Some(ScrollMove::LineUp)
    } else if key == KEY_DOWN {
        Some(ScrollMove::LineDown)
    } else if key == KEY_PAGE_UP {
        Some(ScrollMove::PageUp)
    } else if key == KEY_PAGE_DOWN {
        Some(ScrollMove::PageDown)
    } else if !control && key == KEY_SPACE {
        Some(if shift { ScrollMove::PageUp } else { ScrollMove::PageDown })
    } else if key == KEY_HOME {
        Some(ScrollMove::Top)
    } else if key == KEY_END {
        Some(ScrollMove::Bottom)
    } else {
        None
    }
}

/// The command of a key press, the first that applies in this order: Ctrl+A, Ctrl+C,
/// Ctrl+O, Ctrl+F, Ctrl+`,`, Ctrl+W or Ctrl+Q, Esc, F5, F3, then the scroll keys.
pub open spec fn key_command_spec(control: bool, shift: bool, key: u16) -> KeyCommand {
    if control && key == KEY_A {
        KeyCommand::SelectAll
    } else if control && key == KEY_C {
        KeyCommand::Copy
    } else if control && key == KEY_O {
        KeyCommand::Open
    } else if control && key == KEY_F {
        KeyCommand::Find
    } else if control && key == KEY_COMMA {
        KeyCommand::ContextMenu
    } else if control && (key == KEY_W || key == KEY_Q) {
        KeyCommand::Close
    } else if key == KEY_ESCAPE {
        KeyCommand::ClearSelection
    } else if key == KEY_F5 {
        KeyCommand::Reload
    } else if key == KEY_F3 {
        KeyCommand::FindAgain { reverse: shift }
    } else {
        match scroll_key_move(control, shift, key) {
            Some(m) => KeyCommand::Scroll(m),
            None => KeyCommand::Unhandled,
        }
    }
}

/// What a key press does, given whether Ctrl and Shift are held.
pub fn key_command(control: bool, shift: bool, key: u16) -> (command: KeyCommand)
    ensures
        command == key_command_spec(control, shift, key),
{
    if control && key == KEY_A {
        return KeyCommand::SelectAll;
    }
    if control && key == KEY_C {
        return KeyCommand::Copy;
    }
    if control && key == KEY_O {
        return KeyCommand::Open;
    }
    if control && key == KEY_F {
        return KeyCommand::Find;
    }
    if control && key == KEY_COMMA {
        return KeyCommand::ContextMenu;
    }
    if is_close_shortcut(control, key) {
        return KeyCommand::Close;
    }
    if key == KEY_ESCAPE {
        return KeyCommand::ClearSelection;
    }
    if key == KEY_F5 {
        return KeyCommand::Reload;
    }
    if key == KEY_F3 {
        return KeyCommand::FindAgain { reverse: shift };
    }
    let scroll = if key == KEY_UP {
        Some(ScrollMove::LineUp)
    } else if key == KEY_DOWN {
        Some(ScrollMove::LineDown)
    } else if key == KEY_PAGE_UP {
        Some(ScrollMove::PageUp)
    } else if key == KEY_PAGE_DOWN {
        Some(ScrollMove::PageDown)
    } else if let Some(backward) = space_page_direction(control, shift, key) {
        Some(
            if backward {
                ScrollMove::PageUp
            } else {
                ScrollMove::PageDown
            },
        )
    } else if key == KEY_HOME {
        Some(ScrollMove::Top)
    } else if key == KEY_END {
        Some(ScrollMove::Bottom)
    } else {
        None
    };
    match scroll {
        Some(m) => KeyCommand::Scroll(m),
        None => KeyCommand::Unhandled,
    }
}

/// The Ctrl shortcuts do nothing without Ctrl, and every other key except the space bar
/// does the same with Ctrl held as without it.
pub proof fn lemma_control_shortcuts_need_control(shift: bool, key: u16)
    ensures
        key_command_spec(false, shift, key) != KeyCommand::SelectAll,
        key_command_spec(false, shift, key) != KeyCommand::Copy,
        key_command_spec(false, shift, key) != KeyCommand::Open,
        key_command_spec(false, shift, key) != KeyCommand::Find,
        key_command_spec(false, shift, key) != KeyCommand::ContextMenu,
        key_command_spec(false, shift, key) != KeyCommand::Close,
        key != KEY_A && key != KEY_C && key != KEY_O && key != KEY_F && key != KEY_COMMA
            && key != KEY_W && key != KEY_Q && key != KEY_SPACE ==> key_command_spec(true, shift, key)
            == key_command_spec(false, shift, key),
{
}

/// What the scroll bar asks for: a move, or following the thumb being dragged.
#[derive(Clone, Copy, Debug, PartialEq, Eq, Structural)]
pub enum ScrollBarCommand {
    Move(ScrollMove),
    Track,
}

/// Scroll-bar request: one line up.
pub const SB_LINE_UP: u32 = 0;

/// Scroll-bar request: one line down.
pub const SB_LINE_DOWN: u32 = 1;

/// Scroll-bar request: one page up.
pub const SB_PAGE_UP: u32 = 2;

/// Scroll-bar request: one page down.
pub const SB_PAGE_DOWN: u32 = 3;

/// Scroll-bar request: the thumb was released at a position.
pub const SB_THUMB_POSITION: u32 = 4;

/// Scroll-bar request: the thumb is being dragged.
pub const SB_THUMB_TRACK: u32 = 5;

/// Scroll-bar request: to the top.
pub const SB_TOP: u32 = 6;

/// Scroll-bar request: to the bottom.
pub const SB_BOTTOM: u32 = 7;

/// The command of a scroll-bar request code, or `None` for a code that leaves the view
/// where it is.
pub open spec fn scroll_bar_command_spec(code: u32) -> Option<ScrollBarCommand> {
    if code == SB_LINE_UP {
        Some(ScrollBarCommand::Move(ScrollMove::LineUp))
    } else if code == SB_LINE_DOWN {
        Some(ScrollBarCommand::Move(ScrollMove::LineDown))
    } else if code == SB_PAGE_UP {
        Some(ScrollBarCommand::Move(ScrollMove::PageUp))
    } else if code == SB_PAGE_DOWN {
        Some(ScrollBarCommand::Move(ScrollMove::PageDown))
    } else if code == SB_TOP {
        Some(ScrollBarCommand::Move(ScrollMove::Top))
    } else if code == SB_BOTTOM {
        Some(ScrollBarCommand::Move(ScrollMove::Bottom))
    } else if code == SB_THUMB_TRACK || code == SB_THUMB_POSITION {
        Some(ScrollBarCommand::Track)
    } else {
        None
    }
}

/// What a scroll-bar request asks for.
pub fn scroll_bar_command(code: u32) -> (command: Option<ScrollBarCommand>)
    ensures
        command == scroll_bar_command_spec(code),
{
    if code == SB_LINE_UP {
        Some(ScrollBarCommand::Move(ScrollMove::LineUp))
    } else if code == SB_LINE_DOWN {
        Some(ScrollBarCommand::Move(ScrollMove::LineDown))
    } else if code == SB_PAGE_UP {
        Some(ScrollBarCommand::Move(ScrollMove::PageUp))
    } else if code == SB_PAGE_DOWN {
        Some(ScrollBarCommand::Move(ScrollMove::PageDown))
    } else if code == SB_TOP {
        Some(ScrollBarCommand::Move(ScrollMove::Top))
    } else if code == SB_BOTTOM {
        Some(ScrollBarCommand::Move(ScrollMove::Bottom))
    } else if code == SB_THUMB_TRACK || code == SB_THUMB_POSITION {
        Some(ScrollBarCommand::Track)
    } else {
        None
    }
}

/// What a context-menu command asks of the viewer.
#[derive(Clone, Copy, Debug, PartialEq, Eq, Structural)]
pub enum MenuAction {
    Find,
    /// Search the web for the selected text.
    SearchWeb,
    Copy,
    SelectAll,
    ClearSelection,
    /// Place the window on its monitor.
    Arrange(WindowLayout),
    /// Use these display settings.
    Apply(ViewSettings),
    /// The menu was dismissed, or the command is unknown.
    Nothing,
}

/// The action of a menu command: the editing commands, then the window layouts, then the
/// display settings that `settings_after_command` gives.
pub open spec fn menu_action_spec(current: ViewSettings, command: u32) -> MenuAction {
    if command == CMD_FIND {
        MenuAction::Find
    } else if command == CMD_SEARCH_WEB {
        MenuAction::SearchWeb
    } else if command == CMD_COPY {
        MenuAction::Copy
    } else if command == CMD_SELECT_ALL {
        MenuAction::SelectAll
    } else if command == CMD_CLEAR_SELECTION {
        MenuAction::ClearSelection
    } else if let Some(layout) = layout_for_command(command) {
        MenuAction::Arrange(layout)
    } else if let Some(next) = settings_after_command(current, command) {
        MenuAction::Apply(next)
    } else {
        MenuAction::Nothing
    }
}

/// What the context-menu command `command` does, with `current` the display settings.
pub fn menu_action(current: ViewSettings, command: u32) -> (action: MenuAction)
    ensures
        action == menu_action_spec(current, command),
{
    if command == CMD_FIND {
        return MenuAction::Find;
    }
    if command == CMD_SEARCH_WEB {
        return MenuAction::SearchWeb;
    }
    if command == CMD_COPY {
        return MenuAction::Copy;
    }
    if command == CMD_SELECT_ALL {
        return MenuAction::SelectAll;
    }
    if command == CMD_CLEAR_SELECTION {
        return MenuAction::ClearSelection;
    }
    if let Some(layout) = window_layout_for_command(command) {
        return MenuAction::Arrange(layout);
    }
    match settings_for_command(current, command) {
        Some(next) => MenuAction::Apply(next),
        None => MenuAction::Nothing,
    }
}

/// Whether a context-menu command can be chosen: finding and selecting everything need
/// text, and copying, clearing the selection and searching the web need a selection.
pub open spec fn command_enabled_spec(command: u32, has_selection: bool, has_text: bool) -> bool {
    if command == CMD_FIND || command == CMD_SELECT_ALL {
        has_text
    } else if command == CMD_COPY || command == CMD_CLEAR_SELECTION || command == CMD_SEARCH_WEB {
        has_selection
    } else {
        true
    }
}

/// Whether the context-menu command `command` can be chosen.
pub fn command_enabled(command: u32, has_selection: bool, has_text: bool) -> (enabled: bool)
    ensures
        enabled == command_enabled_spec(command, has_selection, has_text),
{
    if command == CMD_FIND || command == CMD_SELECT_ALL {
        has_text
    } else if command == CMD_COPY || command == CMD_CLEAR_SELECTION || command == CMD_SEARCH_WEB {
        has_selection
    } else {
        true
    }
}

/// Whether a menu item shows a check mark: a font, size or spacing command whose choice is
/// the current one.
pub open spec fn command_checked_spec(current: ViewSettings, command: u32) -> bool {
    ||| font_for_command(command) == Some(current.font)
    ||| size_for_command(command) == Some(current.font_size)
    ||| spacing_for_command(command) == Some(current.line_spacing)
}

/// Whether the menu item of `command` shows a check mark with the settings `current`.
pub fn command_checked(current: ViewSettings, command: u32) -> (checked: bool)
    ensures
        checked == command_checked_spec(current, command),
{
    match settings_for_command(current, command) {
        Some(next) => command != CMD_SETTINGS_RESET && next == current,
        None => false,
    }
}

/// Each key does what its shortcut names, whatever other modifiers are held: Ctrl+A
/// selects all, Ctrl+C copies, Ctrl+O opens, Ctrl+F finds, Ctrl+`,` opens the menu,
/// Ctrl+W and Ctrl+Q close; Esc clears the selection, F5 reloads and F3 finds again,
/// backward with Shift; the arrows move by a line, Page Up and Page Down by a page and
/// Home and End to the ends; the space bar pages down, and up with Shift.
pub proof fn lemma_keys_do_what_they_name(control: bool, shift: bool)
    ensures
        key_command_spec(true, shift, KEY_A) == KeyCommand::SelectAll,
        key_command_spec(true, shift, KEY_C) == KeyCommand::Copy,
        key_command_spec(true, shift, KEY_O) == KeyCommand::Open,
        key_command_spec(true, shift, KEY_F) == KeyCommand::Find,
        key_command_spec(true, shift, KEY_COMMA) == KeyCommand::ContextMenu,
        key_command_spec(true, shift, KEY_W) == KeyCommand::Close,
        key_command_spec(true, shift, KEY_Q) == KeyCommand::Close,
        key_command_spec(control, shift, KEY_ESCAPE) == KeyCommand::ClearSelection,
        key_command_spec(control, shift, KEY_F5) == KeyCommand::Reload,
        key_command_spec(control, shift, KEY_F3) == (KeyCommand::FindAgain { reverse: shift }),
        key_command_spec(control, shift, KEY_UP) == KeyCommand::Scroll(ScrollMove::LineUp),
        key_command_spec(control, shift, KEY_DOWN) == KeyCommand::Scroll(ScrollMove::LineDown),
        key_command_spec(control, shift, KEY_PAGE_UP) == KeyCommand::Scroll(ScrollMove::PageUp),
        key_command_spec(control, shift, KEY_PAGE_DOWN) == KeyCommand::Scroll(ScrollMove::PageDown),
        key_command_spec(control, shift, KEY_HOME) == KeyCommand::Scroll(ScrollMove::Top),
        key_command_spec(control, shift, KEY_END) == KeyCommand::Scroll(ScrollMove::Bottom),
        key_command_spec(false, false, KEY_SPACE) == KeyCommand::Scroll(ScrollMove::PageDown),
        key_command_spec(false, true, KEY_SPACE) == KeyCommand::Scroll(ScrollMove::PageUp),
        key_command_spec(true, shift, KEY_SPACE) == KeyCommand::Unhandled,
{
}

/// The scroll bar's line, page and end requests move the view as the keys of the same
/// name do, and dragging or releasing the thumb follows it.
pub proof fn lemma_scroll_bar_moves_as_keys(control: bool, shift: bool)
    ensures
        scroll_bar_command_spec(SB_LINE_UP) == Some(ScrollBarCommand::Move(ScrollMove::LineUp)),
        scroll_bar_command_spec(SB_LINE_DOWN) == Some(ScrollBarCommand::Move(ScrollMove::LineDown)),
        scroll_bar_command_spec(SB_PAGE_UP) == Some(ScrollBarCommand::Move(ScrollMove::PageUp)),
        scroll_bar_command_spec(SB_PAGE_DOWN) == Some(ScrollBarCommand::Move(ScrollMove::PageDown)),
        scroll_bar_command_spec(SB_TOP) == Some(ScrollBarCommand::Move(ScrollMove::Top)),
        scroll_bar_command_spec(SB_BOTTOM) == Some(ScrollBarCommand::Move(ScrollMove::Bottom)),
        scroll_bar_command_spec(SB_THUMB_TRACK) == Some(ScrollBarCommand::Track),
        scroll_bar_command_spec(SB_THUMB_POSITION) == Some(ScrollBarCommand::Track),
        forall|code: u32| code > SB_BOTTOM ==> #[trigger] scroll_bar_command_spec(code) is None,
        key_command_spec(control, shift, KEY_UP) == KeyCommand::Scroll(
            scroll_bar_command_spec(SB_LINE_UP)->0->Move_0,
        ),
        key_command_spec(control, shift, KEY_DOWN) == KeyCommand::Scroll(
            scroll_bar_command_spec(SB_LINE_DOWN)->0->Move_0,
        ),
        key_command_spec(control, shift, KEY_PAGE_UP) == KeyCommand::Scroll(
            scroll_bar_command_spec(SB_PAGE_UP)->0->Move_0,
        ),
        key_command_spec(control, shift, KEY_PAGE_DOWN) == KeyCommand::Scroll(
            scroll_bar_command_spec(SB_PAGE_DOWN)->0->Move_0,
        ),
        key_command_spec(control, shift, KEY_HOME) == KeyCommand::Scroll(
            scroll_bar_command_spec(SB_TOP)->0->Move_0,
        ),
        key_command_spec(control, shift, KEY_END) == KeyCommand::Scroll(
            scroll_bar_command_spec(SB_BOTTOM)->0->Move_0,
        ),
{
}

/// Each context-menu item does what it names, whatever the current settings: the editing
/// items their editing action, the window items the layout they name, and the font, size,
/// spacing and reset items apply exactly the settings that `settings_after_command` gives;
/// any other command does nothing.
pub proof fn lemma_menu_items_do_what_they_name(current: ViewSettings, command: u32)
    ensures
        menu_action_spec(current, CMD_FIND) == MenuAction::Find,
        menu_action_spec(current, CMD_SEARCH_WEB) == MenuAction::SearchWeb,
        menu_action_spec(current, CMD_COPY) == MenuAction::Copy,
        menu_action_spec(current, CMD_SELECT_ALL) == MenuAction::SelectAll,
        menu_action_spec(current, CMD_CLEAR_SELECTION) == MenuAction::ClearSelection,
        menu_action_spec(current, CMD_WINDOW_LEFT_THIRD) == MenuAction::Arrange(WindowLayout::LeftThird),
        menu_action_spec(current, CMD_WINDOW_RIGHT_THIRD) == MenuAction::Arrange(WindowLayout::RightThird),
        menu_action_spec(current, CMD_WINDOW_LEFT_HALF) == MenuAction::Arrange(WindowLayout::LeftHalf),
        menu_action_spec(current, CMD_WINDOW_RIGHT_HALF) == MenuAction::Arrange(WindowLayout::RightHalf),
        settings_after_command(current, command) matches Some(next) ==> menu_action_spec(current, command)
            == MenuAction::Apply(next),
        settings_after_command(current, command) is None && layout_for_command(command) is None && command
            != CMD_FIND && command != CMD_SEARCH_WEB && command != CMD_COPY && command != CMD_SELECT_ALL
            && command != CMD_CLEAR_SELECTION ==> menu_action_spec(current, command) == MenuAction::Nothing,
{
}

/// A menu item shows a check mark exactly when it names the current font, size or line
/// spacing; Reset, the window items and the editing items never do.
pub proof fn lemma_check_marks_show_current_settings(current: ViewSettings)
    ensures
        command_checked_spec(current, CMD_FONT_BIZ_UD_GOTHIC) == (current.font == FontChoice::BizUdGothic),
        command_checked_spec(current, CMD_FONT_SEGOE_UI) == (current.font == FontChoice::SegoeUi),
        command_checked_spec(current, CMD_FONT_YU_GOTHIC_UI) == (current.font == FontChoice::YuGothicUi),
        command_checked_spec(current, CMD_FONT_MEIRYO) == (current.font == FontChoice::Meiryo),
        command_checked_spec(current, CMD_FONT_ARIAL) == (current.font == FontChoice::Arial),
        command_checked_spec(current, CMD_FONT_GEORGIA) == (current.font == FontChoice::Georgia),
        command_checked_spec(current, CMD_FONT_CONSOLAS) == (current.font == FontChoice::Consolas),
        command_checked_spec(current, CMD_SIZE_11) == (current.font_size == 11),
        command_checked_spec(current, CMD_SIZE_13) == (current.font_size == 13),
        command_checked_spec(current, CMD_SIZE_15) == (current.font_size == 15),
        command_checked_spec(current, CMD_SIZE_17) == (current.font_size == 17),
        command_checked_spec(current, CMD_SIZE_19) == (current.font_size == 19),
        command_checked_spec(current, CMD_SIZE_21) == (current.font_size == 21),
        command_checked_spec(current, CMD_SPACING_COMPACT) == (current.line_spacing == LineSpacingChoice::Compact),
        command_checked_spec(current, CMD_SPACING_STANDARD) == (current.line_spacing == LineSpacingChoice::Standard),
        command_checked_spec(current, CMD_SPACING_RELAXED) == (current.line_spacing == LineSpacingChoice::Relaxed),
        !command_checked_spec(current, CMD_SETTINGS_RESET),
        !command_checked_spec(current, CMD_WINDOW_LEFT_THIRD),
        !command_checked_spec(current, CMD_WINDOW_RIGHT_THIRD),
        !command_checked_spec(current, CMD_WINDOW_LEFT_HALF),
        !command_checked_spec(current, CMD_WINDOW_RIGHT_HALF),
        !command_checked_spec(current, CMD_FIND),
        !command_checked_spec(current, CMD_COPY),
{
}

/// Finding and selecting everything can be chosen exactly when there is text, and
/// copying, clearing the selection and searching the web exactly when something is
/// selected; the other items can always be chosen.
pub proof fn lemma_enabled_items(has_selection: bool, has_text: bool, command: u32)
    ensures
        command_enabled_spec(CMD_FIND, has_selection, has_text) == has_text,
        command_enabled_spec(CMD_SELECT_ALL, has_selection, has_text) == has_text,
        command_enabled_spec(CMD_COPY, has_selection, has_text) == has_selection,
        command_enabled_spec(CMD_CLEAR_SELECTION, has_selection, has_text) == has_selection,
        command_enabled_spec(CMD_SEARCH_WEB, has_selection, has_text) == has_selection,
        command != CMD_FIND && command != CMD_SELECT_ALL && command != CMD_COPY && command
            != CMD_CLEAR_SELECTION && command != CMD_SEARCH_WEB ==> command_enabled_spec(
            command,
            has_selection,
            has_text,
        ),
{
}

/// The selection of the window: its two ends, and whether the mouse is dragging it.
#[derive(Clone, Copy, Debug, PartialEq, Eq, Structural)]
pub struct Selection {
    pub anchor: Option<u32>,
    pub active: Option<u32>,
    pub selecting: bool,
}

impl Selection {
    /// No selection.
    pub fn none() -> (s: Selection)
        ensures
            s == (Selection { anchor: None, active: None, selecting: false }),
    {
        Selection { anchor: None, active: None, selecting: false }
    }

    /// A selection from `start` to `end`, not being dragged (after a find, a double-click,
    /// or a reload that keeps it).
    pub fn between(start: u32, end: u32) -> (s: Selection)
        ensures
            s == (Selection { anchor: Some(start), active: Some(end), selecting: false }),
    {
        Selection { anchor: Some(start), active: Some(end), selecting: false }
    }

    /// The whole text of `text_len` code units selected.
    pub fn all(text_len: u32) -> (s: Selection)
        ensures
            s == (Selection { anchor: Some(0), active: Some(text_len), selecting: false }),
    {
        Selection::between(0, text_len)
    }

    /// A drag started at `position`.
    pub fn begun(position: u32) -> (s: Selection)
        ensures
            s == (Selection { anchor: Some(position), active: Some(position), selecting: true }),
    {
        Selection { anchor: Some(position), active: Some(position), selecting: true }
    }

    /// The selection after the mouse moves over `position`: the moving end follows it
    /// while a drag is under way.
    pub fn dragged_to(self, position: u32) -> (s: Selection)
        ensures
            s == if self.selecting { Selection { active: Some(position), ..self } } else { self },
    {
        if self.selecting {
            Selection { active: Some(position), ..self }
        } else {
            self
        }
    }

    /// The selection after the drag ends.
    pub fn released(self) -> (s: Selection)
        ensures
            s == (Selection { selecting: false, ..self }),
    {
        Selection { selecting: false, ..self }
    }

    /// The selected range, when both ends are set and differ.
    pub fn range(self) -> (r: Option<(u32, u32)>)
        ensures
            r == match (self.anchor, self.active) {
                (Some(a), Some(b)) => if a != b {
                    Some((a, b))
                } else {
                    None::<(u32, u32)>
                },
                _ => None::<(u32, u32)>,
            },
    {
        active_selection(self.anchor, self.active)
    }
}

} // verus!
