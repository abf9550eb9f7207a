//! The main menu's pure parts: what can be hit on its screens, what its world list shows,
//! which worlds fit in the list, how long texts are cut, and its font.

use vstd::prelude::*;
use crate::client::particles::xorshift_step;
use crate::glyphs::{alnum_rows, alnum_glyph};
use crate::text::chars_of;

verus! {

/// The text field of the world-creation form that takes typed input.
#[derive(Debug, Clone, Copy, PartialEq, Eq, Structural)]
pub enum WorldCreateInputField {
    Name,
    Seed,
}

/// What a click on the world-selection screen hits.
#[derive(Debug, Clone, Copy, PartialEq, Eq, Structural)]
pub enum WorldSelectHitTarget {
    WorldEntry(usize),
    CreateNewWorld,
    PlaySelected,
    DeleteSelected,
    Back,
    CreateNameField,
    CreateSeedField,
    CreatePlayModeToggle,
    CreateConfirm,
    CreateCancel,
    DeleteConfirm,
    DeleteCancel,
}

/// What a click on the pause menu hits.
#[derive(Debug, Clone, Copy, PartialEq, Eq, Structural)]
pub enum PauseMenuHitTarget {
    Resume,
    Settings,
    SaveAndQuit,
}

/// The sliders of the settings screen.
#[derive(Debug, Clone, Copy, PartialEq, Eq, Structural)]
pub enum SettingsSliderKind {
    RenderDistance,
    SurfaceBelow,
    FlightBelow,
    StreamAbove,
    LodDistance,
    MouseSensitivity,
    Fov,
    GuiScale,
}

/// What a click on the settings screen hits: a slider (the value under the cursor is the
/// caller's), the FPS toggle, or the back button.
#[derive(Debug, Clone, Copy, PartialEq, Eq, Structural)]
pub enum SettingsHitTarget {
    Slider(SettingsSliderKind),
    ShowFpsToggle,
    Back,
}

/// The row of the settings screen a target stands on, counted from the top.
pub open spec fn settings_row(target: SettingsHitTarget) -> u8 {
    match target {
        SettingsHitTarget::Slider(kind) => match kind {
            SettingsSliderKind::RenderDistance => 0,
            SettingsSliderKind::SurfaceBelow => 1,
            SettingsSliderKind::FlightBelow => 2,
            SettingsSliderKind::StreamAbove => 3,
            SettingsSliderKind::LodDistance => 4,
            SettingsSliderKind::MouseSensitivity => 5,
            SettingsSliderKind::Fov => 6,
            SettingsSliderKind::GuiScale => 7,
        },
        SettingsHitTarget::ShowFpsToggle => 8,
        SettingsHitTarget::Back => 9,
    }
}

/// The selection that clicking a target of the settings screen moves to: its row.
pub fn settings_target_to_selection(target: SettingsHitTarget) -> (r: u8)
    ensures
        r == settings_row(target),
        r <= 9,
{
    match target {
        SettingsHitTarget::Slider(SettingsSliderKind::RenderDistance) => 0,
        SettingsHitTarget::Slider(SettingsSliderKind::SurfaceBelow) => 1,
        SettingsHitTarget::Slider(SettingsSliderKind::FlightBelow) => 2,
        SettingsHitTarget::Slider(SettingsSliderKind::StreamAbove) => 3,
        SettingsHitTarget::Slider(SettingsSliderKind::LodDistance) => 4,
        SettingsHitTarget::Slider(SettingsSliderKind::MouseSensitivity) => 5,
        SettingsHitTarget::Slider(SettingsSliderKind::Fov) => 6,
        SettingsHitTarget::Slider(SettingsSliderKind::GuiScale) => 7,
        SettingsHitTarget::ShowFpsToggle => 8,
        SettingsHitTarget::Back => 9,
    }
}

/// The colour bytes (red, green, blue) of a world's seed preview: the seed, xored with a
/// constant and put through one xorshift step, gives its three lowest bytes.
pub open spec fn seed_preview_channels(seed: u64) -> (u8, u8, u8) {
    let v = xorshift_step(seed ^ 0x9E37_79B9_7F4A_7C15u64);
    ((v & 0xFFu64) as u8, ((v >> 8u64) & 0xFFu64) as u8, ((v >> 16u64) & 0xFFu64) as u8)
}

/// The colour bytes of a world's seed preview; the renderer scales each into its band.
pub fn seed_preview_bytes(seed: u64) -> (r: (u8, u8, u8))
    ensures
        r == seed_preview_channels(seed),
{
    let mut value = seed ^ 0x9E37_79B9_7F4A_7C15;
    value = value ^ (value >> 12);
    value = value ^ (value << 25);
    value = value ^ (value >> 27);
    ((value & 0xFF) as u8, ((value >> 8) & 0xFF) as u8, ((value >> 16) & 0xFF) as u8)
}

/// A world as the world list shows it.
#[derive(Debug, Clone, Copy)]
pub struct WorldListEntryView<'a> {
    pub name: &'a str,
    pub seed: u64,
    pub size_label: &'a str,
    pub last_opened_label: &'a str,
}

/// What the world-selection screen shows.
#[derive(Debug, Clone, Copy)]
pub struct WorldSelectView<'a> {
    pub worlds: &'a [WorldListEntryView<'a>],
    pub selected_world: Option<usize>,
    pub create_form_open: bool,
    pub create_name_input: &'a str,
    pub create_seed_input: &'a str,
    pub create_play_mode_label: &'a str,
    pub create_play_mode_is_creative: bool,
    pub active_input_field: WorldCreateInputField,
    pub delete_confirmation_open: bool,
}

/// The first world shown when the list is scrolled to keep the selected world in the middle.
pub open spec fn centred_start(visible_worlds: usize, selected_world: Option<usize>) -> int {
    let s = match selected_world {
        Some(i) => i as int,
        None => 0,
    };
    if s > visible_worlds / 2 {
        s - visible_worlds / 2
    } else {
        0
    }
}

/// The range of worlds shown: all of them when they fit; otherwise `visible_worlds` of them
/// around the selected one, kept within the list.
pub open spec fn visible_range(total_worlds: usize, visible_worlds: usize, selected_world: Option<usize>) -> (int, int) {
    if total_worlds == 0 || visible_worlds == 0 || total_worlds <= visible_worlds {
        (0, total_worlds as int)
    } else {
        let start = centred_start(visible_worlds, selected_world);
        let start = if start + visible_worlds > total_worlds {
            total_worlds - visible_worlds
        } else {
            start
        };
        (start, start + visible_worlds)
    }
}

/// The range of worlds, start included and end excluded, that the list shows.
pub fn visible_world_range(total_worlds: usize, visible_worlds: usize, selected_world: Option<usize>) -> (r: (usize, usize))
    requires
        total_worlds > visible_worlds && visible_worlds > 0 ==> centred_start(visible_worlds, selected_world)
            + visible_worlds <= usize::MAX,
    ensures
        r.0 as int == visible_range(total_worlds, visible_worlds, selected_world).0,
        r.1 as int == visible_range(total_worlds, visible_worlds, selected_world).1,
        r.0 <= r.1 <= total_worlds,
        total_worlds <= visible_worlds || visible_worlds == 0 ==> r == (0usize, total_worlds),
        total_worlds > visible_worlds && visible_worlds > 0 ==> r.1 - r.0 == visible_worlds,
        selected_world matches Some(k) ==> (k < total_worlds ==> r.0 <= k < r.1),
{
    proof {
        if visible_worlds > 0 {
            lemma_visible_range_fits(total_worlds, visible_worlds, selected_world);
        }
    }
    if total_worlds == 0 || visible_worlds == 0 || total_worlds <= visible_worlds {
        return (0, total_worlds);
    }
    let selected = match selected_world {
        Some(i) => i,
        None => 0,
    };
    let mut start = selected.saturating_sub(visible_worlds / 2);
    if start + visible_worlds > total_worlds {
        start = total_worlds - visible_worlds;
    }
    (start, start + visible_worlds)
}

/// The worlds shown lie within the list, and as many are shown as fit: all of them, or
/// `visible_worlds` of them when there are more.
pub proof fn lemma_visible_range_fits(total_worlds: usize, visible_worlds: usize, selected_world: Option<usize>)
    requires
        visible_worlds > 0,
    ensures
        0 <= visible_range(total_worlds, visible_worlds, selected_world).0
            <= visible_range(total_worlds, visible_worlds, selected_world).1 <= total_worlds,
        visible_range(total_worlds, visible_worlds, selected_world).1
            - visible_range(total_worlds, visible_worlds, selected_world).0 == if total_worlds <= visible_worlds {
            total_worlds as int
        } else {
            visible_worlds as int
        },
        selected_world matches Some(i) ==> (i < total_worlds ==> visible_range(total_worlds, visible_worlds, selected_world).0 <= i
            < visible_range(total_worlds, visible_worlds, selected_world).1),
{
}

/// A text cut to at most `max_chars` characters, ending in `...` when it was cut and there
/// is room for more than the dots.
pub open spec fn truncated_with_dots(t: Seq<char>, max_chars: nat) -> Seq<char> {
    if t.len() <= max_chars {
        t
    } else if max_chars <= 3 {
        t.take(max_chars as int)
    } else {
        t.take(max_chars - 3) + "..."@
    }
}

/// A cut text is never longer than the room it was cut for.
pub proof fn lemma_truncated_with_dots_fits(t: Seq<char>, max_chars: nat)
    ensures
        truncated_with_dots(t, max_chars).len() <= max_chars,
        t.len() <= max_chars ==> truncated_with_dots(t, max_chars) == t,
{
    reveal_strlit("...");
}

/// Cuts a text to at most `max_chars` characters, marking a cut with `...`.
pub fn truncate_text(text: &str, max_chars: usize) -> (r: String)
    ensures
        r@ == truncated_with_dots(text@, max_chars as nat),
{
    let chars = chars_of(text);
    if chars.len() <= max_chars {
        let mut s = String::new();
        s.push_str(text);
        assert(s@ =~= text@);
        return s;
    }
    let keep = if max_chars <= 3 {
        max_chars
    } else {
        max_chars - 3
    };
    let mut out = String::new();
    let mut i: usize = 0;
    while i < keep
        invariant
            keep <= chars@.len(),
            i <= keep,
            out@ == chars@.take(i as int),
        decreases keep - i,
    {
        out.push(chars[i]);
        i += 1;
        assert(out@ =~= chars@.take(i as int));
    }
    if max_chars > 3 {
        out.push_str("...");
    }
    out
}

/// The rows of the characters of the menu's font.
pub open spec fn menu_rows(ch: char) -> Option<[u8; 7]> {
    if ch == ' ' {
        Some([0x00u8, 0x00, 0x00, 0x00, 0x00, 0x00, 0x00])
    } else if ch == '.' {
        Some([0x00u8, 0x00, 0x00, 0x00, 0x00, 0x0C, 0x0C])
    } else if ch == ':' {
        Some([0x00u8, 0x0C, 0x0C, 0x00, 0x0C, 0x0C, 0x00])
    } else if ch == '-' {
        Some([0x00u8, 0x00, 0x00, 0x1F, 0x00, 0x00, 0x00])
    } else if ch == '_' {
        Some([0x00u8, 0x00, 0x00, 0x00, 0x00, 0x00, 0x1F])
    } else if ch == '/' {
        Some([0x01u8, 0x02, 0x04, 0x08, 0x10, 0x00, 0x00])
    } else {
        alnum_rows(ch)
    }
}

/// The rows of a character of the font; characters it lacks have none.
pub fn glyph(ch: char) -> (r: Option<[u8; 7]>)
    ensures
        r == menu_rows(ch),
{
    match ch {
        ' ' => Some([0x00, 0x00, 0x00, 0x00, 0x00, 0x00, 0x00]),
        '.' => Some([0x00, 0x00, 0x00, 0x00, 0x00, 0x0C, 0x0C]),
        ':' => Some([0x00, 0x0C, 0x0C, 0x00, 0x0C, 0x0C, 0x00]),
        '-' => Some([0x00, 0x00, 0x00, 0x1F, 0x00, 0x00, 0x00]),
        '_' => Some([0x00, 0x00, 0x00, 0x00, 0x00, 0x00, 0x1F]),
        '/' => Some([0x01, 0x02, 0x04, 0x08, 0x10, 0x00, 0x00]),
        _ => alnum_glyph(ch),
    }
}

} // verus!
