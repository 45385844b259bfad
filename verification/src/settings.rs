//! View settings: font, text size and line spacing, and the menu commands that change
//! them one at a time.

use vstd::prelude::*;

verus! {

/// The font families that can be chosen.
#[derive(Clone, Copy, Debug, PartialEq, Eq, Structural)]
pub enum FontChoice {
    BizUdGothic,
    SegoeUi,
    Arial,
    Georgia,
    Consolas,
    YuGothicUi,
    Meiryo,
}

impl Default for FontChoice {
    fn default() -> (font: Self)
        ensures
            font == FontChoice::SegoeUi,
    {
        FontChoice::SegoeUi
    }
}

/// The family name of each font choice.
pub open spec fn font_family(font: FontChoice) -> Seq<char> {
    match font {
        FontChoice::BizUdGothic => "BIZ UDGothic"@,
        FontChoice::SegoeUi => "Segoe UI"@,
        FontChoice::Arial => "Arial"@,
        FontChoice::Georgia => "Georgia"@,
        FontChoice::Consolas => "Consolas"@,
        FontChoice::YuGothicUi => "Yu Gothic UI"@,
        FontChoice::Meiryo => "Meiryo"@,
    }
}

impl FontChoice {
    /// The family name to ask the text system for.
    pub fn family_name(self) -> (name: &'static str)
        ensures
            name@ == font_family(self),
    {
        match self {
            FontChoice::BizUdGothic => "BIZ UDGothic",
            FontChoice::SegoeUi => "Segoe UI",
            FontChoice::Arial => "Arial",
            FontChoice::Georgia => "Georgia",
            FontChoice::Consolas => "Consolas",
            FontChoice::YuGothicUi => "Yu Gothic UI",
            FontChoice::Meiryo => "Meiryo",
        }
    }
}

/// The spacing between lines of text.
#[derive(Clone, Copy, Debug, PartialEq, Eq, Structural)]
pub enum LineSpacingChoice {
    Compact,
    Standard,
    Relaxed,
}

impl Default for LineSpacingChoice {
    fn default() -> (spacing: Self)
        ensures
            spacing == LineSpacingChoice::Standard,
    {
        LineSpacingChoice::Standard
    }
}

/// Font, text size and line spacing for the current session.
#[derive(Clone, Copy, Debug, PartialEq, Eq, Structural)]
pub struct ViewSettings {
    pub font: FontChoice,
    pub font_size: u8,
    pub line_spacing: LineSpacingChoice,
}

/// Segoe UI at size 15 with standard line spacing.
pub open spec fn default_settings() -> ViewSettings {
    ViewSettings { font: FontChoice::SegoeUi, font_size: 15, line_spacing: LineSpacingChoice::Standard }
}

impl Default for ViewSettings {
    fn default() -> (settings: Self)
        ensures
            settings == default_settings(),
    {
        ViewSettings { font: FontChoice::SegoeUi, font_size: 15, line_spacing: LineSpacingChoice::Standard }
    }
}

pub const CMD_COPY: u32 = 901;
pub const CMD_SELECT_ALL: u32 = 902;
pub const CMD_CLEAR_SELECTION: u32 = 903;
pub const CMD_FIND: u32 = 904;

/// Menu command: search the web for the selected text.
pub const CMD_SEARCH_WEB: u32 = 905;
pub const CMD_FONT_BIZ_UD_GOTHIC: u32 = 1000;
pub const CMD_FONT_SEGOE_UI: u32 = 1001;
pub const CMD_FONT_YU_GOTHIC_UI: u32 = 1002;
pub const CMD_FONT_MEIRYO: u32 = 1003;
pub const CMD_FONT_ARIAL: u32 = 1004;
pub const CMD_FONT_GEORGIA: u32 = 1005;
pub const CMD_FONT_CONSOLAS: u32 = 1006;
pub const CMD_SIZE_11: u32 = 1099;
pub const CMD_SIZE_13: u32 = 1100;
pub const CMD_SIZE_15: u32 = 1101;
pub const CMD_SIZE_17: u32 = 1102;
pub const CMD_SIZE_19: u32 = 1103;
pub const CMD_SIZE_21: u32 = 1104;
pub const CMD_SPACING_COMPACT: u32 = 1201;
pub const CMD_SPACING_STANDARD: u32 = 1202;
pub const CMD_SPACING_RELAXED: u32 = 1203;
pub const CMD_SETTINGS_RESET: u32 = 1301;
pub const CMD_WINDOW_LEFT_THIRD: u32 = 1401;
pub const CMD_WINDOW_RIGHT_THIRD: u32 = 1402;
pub const CMD_WINDOW_LEFT_HALF: u32 = 1403;
pub const CMD_WINDOW_RIGHT_HALF: u32 = 1404;

/// The font that a font command selects.
pub open spec fn font_for_command(command: u32) -> Option<FontChoice> {
    if command == CMD_FONT_BIZ_UD_GOTHIC {
        Some(FontChoice::BizUdGothic)
    } else if command == CMD_FONT_SEGOE_UI {
        Some(FontChoice::SegoeUi)
    } else if command == CMD_FONT_ARIAL {
        Some(FontChoice::Arial)
    } else if command == CMD_FONT_GEORGIA {
        Some(FontChoice::Georgia)
    } else if command == CMD_FONT_CONSOLAS {
        Some(FontChoice::Consolas)
    } else if command == CMD_FONT_YU_GOTHIC_UI {
        Some(FontChoice::YuGothicUi)
    } else if command == CMD_FONT_MEIRYO {
        Some(FontChoice::Meiryo)
    } else {
        None
    }
}

/// The text size that a size command selects.
pub open spec fn size_for_command(command: u32) -> Option<u8> {
    if command == CMD_SIZE_11 {
        Some(11u8)
    } else if command == CMD_SIZE_13 {
        Some(13u8)
    } else if command == CMD_SIZE_15 {
        Some(15u8)
    } else if command == CMD_SIZE_17 {
        Some(17u8)
    } else if command == CMD_SIZE_19 {
        Some(19u8)
    } else if command == CMD_SIZE_21 {
        Some(21u8)
    } else {
        None
    }
}

/// The line spacing that a spacing command selects.
pub open spec fn spacing_for_command(command: u32) -> Option<LineSpacingChoice> {
    if command == CMD_SPACING_COMPACT {
        Some(LineSpacingChoice::Compact)
    } else if command == CMD_SPACING_STANDARD {
        Some(LineSpacingChoice::Standard)
    } else if command == CMD_SPACING_RELAXED {
        Some(LineSpacingChoice::Relaxed)
    } else {
        None
    }
}

/// The settings after a menu command: a font, size or spacing command replaces that one
/// setting, the reset command restores the defaults, and other commands change nothing.
pub open spec fn settings_after_command(current: ViewSettings, command: u32) -> Option<ViewSettings> {
    if let Some(font) = font_for_command(command) {
        Some(ViewSettings { font, ..current })
    } else if let Some(size) = size_for_command(command) {
        Some(ViewSettings { font_size: size, ..current })
    } else if let Some(spacing) = spacing_for_command(command) {
        Some(ViewSettings { line_spacing: spacing, ..current })
    } else if command == CMD_SETTINGS_RESET {
        Some(default_settings())
    } else {
        None
    }
}

/// The settings that a menu command leads to, or `None` for a command that is not a
/// settings command.
pub fn settings_for_command(current: ViewSettings, command: u32) -> (next: Option<ViewSettings>)
    ensures
        next == settings_after_command(current, command),
{
    let mut next = current;
    if command == CMD_FONT_BIZ_UD_GOTHIC {
        next.font = FontChoice::BizUdGothic;
    } else if command == CMD_FONT_SEGOE_UI {
        next.font = FontChoice::SegoeUi;
    } else if command == CMD_FONT_ARIAL {
        next.font = FontChoice::Arial;
    } else if command == CMD_FONT_GEORGIA {
        next.font = FontChoice::Georgia;
    } else if command == CMD_FONT_CONSOLAS {
        next.font = FontChoice::Consolas;
    } else if command == CMD_FONT_YU_GOTHIC_UI {
        next.font = FontChoice::YuGothicUi;
    } else if command == CMD_FONT_MEIRYO {
        next.font = FontChoice::Meiryo;
    } else if command == CMD_SIZE_11 {
        next.font_size = 11;
    } else if command == CMD_SIZE_13 {
        next.font_size = 13;
    } else if command == CMD_SIZE_15 {
        next.font_size = 15;
    } else if command == CMD_SIZE_17 {
        next.font_size = 17;
    } else if command == CMD_SIZE_19 {
        next.font_size = 19;
    } else if command == CMD_SIZE_21 {
        next.font_size = 21;
    } else if command == CMD_SPACING_COMPACT {
        next.line_spacing = LineSpacingChoice::Compact;
    } else if command == CMD_SPACING_STANDARD {
        next.line_spacing = LineSpacingChoice::Standard;
    } else if command == CMD_SPACING_RELAXED {
        next.line_spacing = LineSpacingChoice::Relaxed;
    } else if command == CMD_SETTINGS_RESET {
        next = ViewSettings::default();
    } else {
        return None;
    }
    Some(next)
}

/// A menu command other than reset changes at most one of the three settings, and reset
/// restores Segoe UI at size 15 with standard spacing.
pub proof fn lemma_command_changes_one_setting(current: ViewSettings, command: u32)
    ensures
        settings_after_command(current, command) matches Some(next) ==> {
            ||| command == CMD_SETTINGS_RESET && next == default_settings()
            ||| next.font_size == current.font_size && next.line_spacing == current.line_spacing
            ||| next.font == current.font && next.line_spacing == current.line_spacing
            ||| next.font == current.font && next.font_size == current.font_size
        },
{
}

/// Each menu command selects what its menu item names, whatever the current settings: a
/// font item sets that font, a size item that size and a spacing item that spacing, each
/// leaving the other two settings as they were, and Reset gives Segoe UI at 15 with
/// standard spacing.
pub proof fn lemma_commands_select_what_they_name(current: ViewSettings)
    ensures
        settings_after_command(current, CMD_FONT_BIZ_UD_GOTHIC) == Some(ViewSettings { font: FontChoice::BizUdGothic, ..current }),
        settings_after_command(current, CMD_FONT_SEGOE_UI) == Some(ViewSettings { font: FontChoice::SegoeUi, ..current }),
        settings_after_command(current, CMD_FONT_YU_GOTHIC_UI) == Some(ViewSettings { font: FontChoice::YuGothicUi, ..current }),
        settings_after_command(current, CMD_FONT_MEIRYO) == Some(ViewSettings { font: FontChoice::Meiryo, ..current }),
        settings_after_command(current, CMD_FONT_ARIAL) == Some(ViewSettings { font: FontChoice::Arial, ..current }),
        settings_after_command(current, CMD_FONT_GEORGIA) == Some(ViewSettings { font: FontChoice::Georgia, ..current }),
        settings_after_command(current, CMD_FONT_CONSOLAS) == Some(ViewSettings { font: FontChoice::Consolas, ..current }),
        settings_after_command(current, CMD_SIZE_11) == Some(ViewSettings { font_size: 11, ..current }),
        settings_after_command(current, CMD_SIZE_13) == Some(ViewSettings { font_size: 13, ..current }),
        settings_after_command(current, CMD_SIZE_15) == Some(ViewSettings { font_size: 15, ..current }),
        settings_after_command(current, CMD_SIZE_17) == Some(ViewSettings { font_size: 17, ..current }),
        settings_after_command(current, CMD_SIZE_19) == Some(ViewSettings { font_size: 19, ..current }),
        settings_after_command(current, CMD_SIZE_21) == Some(ViewSettings { font_size: 21, ..current }),
        settings_after_command(current, CMD_SPACING_COMPACT) == Some(ViewSettings { line_spacing: LineSpacingChoice::Compact, ..current }),
        settings_after_command(current, CMD_SPACING_STANDARD) == Some(ViewSettings { line_spacing: LineSpacingChoice::Standard, ..current }),
        settings_after_command(current, CMD_SPACING_RELAXED) == Some(ViewSettings { line_spacing: LineSpacingChoice::Relaxed, ..current }),
        settings_after_command(current, CMD_SETTINGS_RESET) == Some(
            ViewSettings { font: FontChoice::SegoeUi, font_size: 15, line_spacing: LineSpacingChoice::Standard },
        ),
{
}

// ---------------------------------------------------------------------------
// Text sizes for the mouse wheel
// ---------------------------------------------------------------------------

/// The text sizes offered, in order.
pub open spec fn font_sizes() -> Seq<u8> {
    seq![11u8, 13u8, 15u8, 17u8, 19u8, 21u8]
}

/// How far `current` is from the size at `index`.
pub open spec fn size_distance(index: int, current: u8) -> int {
    let size = font_sizes()[index] as int;
    if size >= current { size - current } else { current - size }
}

/// The index of the nearest offered size among indices `i..`, given the best so far.
pub open spec fn nearest_from(current: u8, i: int, best: int) -> int
    decreases 6 - i,
{
    if i >= 6 {
        best
    } else if size_distance(i, current) < size_distance(best, current) {
        nearest_from(current, i + 1, i)
    } else {
        nearest_from(current, i + 1, best)
    }
}

/// The index of the offered size nearest to `current`; the smaller size wins a tie.
pub open spec fn nearest_size_index(current: u8) -> int {
    nearest_from(current, 1, 0)
}

/// The size `steps` places away from the size nearest to `current`, kept within the list.
pub open spec fn stepped_size(current: u8, steps: i32) -> u8 {
    let target = nearest_size_index(current) + steps;
    let index = if target < 0 { 0 } else if target > 5 { 5 } else { target };
    font_sizes()[index]
}

proof fn lemma_nearest_from(current: u8, i: int, best: int)
    requires
        1 <= i <= 6,
        0 <= best < i,
        forall|j: int| 0 <= j < i ==> size_distance(best, current) <= #[trigger] size_distance(j, current),
        forall|j: int| 0 <= j < best ==> #[trigger] size_distance(j, current) > size_distance(best, current),
    ensures
        0 <= nearest_from(current, i, best) < 6,
        forall|j: int|
            0 <= j < 6 ==> size_distance(nearest_from(current, i, best), current) <= #[trigger] size_distance(j, current),
        forall|j: int|
            0 <= j < nearest_from(current, i, best) ==> #[trigger] size_distance(j, current) > size_distance(
                nearest_from(current, i, best),
                current,
            ),
    decreases 6 - i,
{
    if i < 6 {
        if size_distance(i, current) < size_distance(best, current) {
            lemma_nearest_from(current, i + 1, i);
        } else {
            lemma_nearest_from(current, i + 1, best);
        }
    }
}

/// The size chosen for a text size is the nearest offered size, and the smallest one
/// among equally near sizes; a size that is offered is its own nearest size.
pub proof fn lemma_nearest_size(current: u8)
    ensures
        0 <= nearest_size_index(current) < 6,
        forall|j: int|
            0 <= j < 6 ==> size_distance(nearest_size_index(current), current) <= #[trigger] size_distance(j, current),
        forall|j: int|
            0 <= j < nearest_size_index(current) ==> #[trigger] size_distance(j, current) > size_distance(
                nearest_size_index(current),
                current,
            ),
        font_sizes().contains(current) ==> font_sizes()[nearest_size_index(current)] == current,
{
    lemma_nearest_from(current, 1, 0);
    if font_sizes().contains(current) {
        let k = choose|k: int| 0 <= k < 6 && font_sizes()[k] == current;
        assert(size_distance(k, current) == 0);
    }
}

/// The text size after `steps` notches of Ctrl+wheel: the offered size `steps` places away
/// from the one nearest to `current`, kept between the smallest and the largest.
pub fn stepped_font_size(current: u8, steps: i32) -> (size: u8)
    requires
        nearest_size_index(current) + steps <= i32::MAX,
    ensures
        size == stepped_size(current, steps),
{
    let sizes: [u8; 6] = [11, 13, 15, 17, 19, 21];
    assert(sizes@ =~= font_sizes());
    let mut best: usize = 0;
    let mut i: usize = 1;
    while i < 6
        invariant
            1 <= i <= 6,
            best < i,
            sizes@ == font_sizes(),
            nearest_from(current, i as int, best as int) == nearest_size_index(current),
        decreases 6 - i,
    {
        let distance = if sizes[i] >= current {
            sizes[i] - current
        } else {
            current - sizes[i]
        };
        let best_distance = if sizes[best] >= current {
            sizes[best] - current
        } else {
            current - sizes[best]
        };
        if distance < best_distance {
            best = i;
        }
        i += 1;
    }
    let target: i32 = best as i32 + steps;
    let index: usize = if target < 0 {
        0
    } else if target > 5 {
        5
    } else {
        target as usize
    };
    sizes[index]
}

/// A size offered in the menu steps by exactly `steps` places, up to the ends of the list.
pub proof fn lemma_offered_size_steps(index: int, steps: i32)
    requires
        0 <= index < 6,
    ensures
        stepped_size(font_sizes()[index], steps) == font_sizes()[
            if index + steps < 0 { 0 } else if index + steps > 5 { 5 } else { index + steps }
        ],
{
    lemma_nearest_size(font_sizes()[index]);
    assert(font_sizes().contains(font_sizes()[index]));
}

/// The wheel only ever gives a size that the size menu offers: the sizes run from 11 to
/// 21 in steps of 2, the `k`-th of them is the size of the `k`-th size command, and a
/// step up never gives a smaller size than a step down.
pub proof fn lemma_wheel_sizes_are_menu_sizes(current: u8, steps: i32)
    ensures
        ({
            let target = nearest_size_index(current) + steps;
            let k = if target < 0 { 0 } else if target > 5 { 5 } else { target };
            &&& stepped_size(current, steps) == 11 + 2 * k
            &&& size_for_command((CMD_SIZE_11 + k) as u32) == Some(stepped_size(current, steps))
        }),
        steps >= 0 ==> stepped_size(current, steps) >= font_sizes()[nearest_size_index(current)],
        steps <= 0 ==> stepped_size(current, steps) <= font_sizes()[nearest_size_index(current)],
{
    lemma_nearest_size(current);
}

} // verus!
